pub mod aligner_define;
