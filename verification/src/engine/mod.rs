pub mod black_box;
pub mod gate;
pub mod operator;
pub mod operator_helpers;
pub mod qubit_register;
pub mod register_error;
