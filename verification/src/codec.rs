pub mod ast_printer;
pub mod outline_laws;
pub mod parser_laws;
pub mod parser;
