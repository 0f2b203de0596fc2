pub mod machine;
pub mod chip8;
pub mod keypad;
pub mod window;
pub mod laws;
pub mod instruction_laws;
