pub mod teacher_flow;
pub mod segmentation;
pub mod laws;
