pub mod token;
pub mod node;
pub mod codegen;
pub mod machine;
pub mod compiler;
pub mod grammar;
pub mod parsing;
