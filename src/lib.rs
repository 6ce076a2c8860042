pub mod ast;
pub mod value;
pub mod builtins;
pub mod op;
pub mod call;
pub mod lazy;
pub mod machine;
pub mod codec;
