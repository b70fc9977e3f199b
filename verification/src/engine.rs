pub mod fixed;
pub mod object;
pub mod shader;
pub mod space;
