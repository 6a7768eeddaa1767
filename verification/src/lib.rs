pub mod ast;
pub mod builder;
pub mod bytecode;
pub mod control;
pub mod determinism;
pub mod emitter;
pub mod expression;
pub mod grammar;
pub mod lowering;
pub mod machine;
pub mod names;
pub mod number;
pub mod parser;
pub mod pool;
pub mod program;
pub mod script;
pub mod statements;
pub mod stream;
pub mod syntax;
pub mod text;
pub mod tokenizer;
pub mod variables;
pub mod words;
