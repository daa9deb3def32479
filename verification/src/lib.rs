pub mod crop_backend;
pub mod jumprope_backend;
pub mod laws;
pub mod offsets;
pub mod rope;
pub mod ropey_backend;
pub mod trace;
pub mod xi_backend;
