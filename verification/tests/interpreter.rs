use minishell::interpreter::{Interpreter, InterpreterError};
use minishell::logger::LoggerRepository;
use minishell::token::Tokenizer;
use minishell::ast::AstBuilder;

#[derive(Clone)]
pub struct PrintLoggerRepository {}

impl LoggerRepository for PrintLoggerRepository {
    fn print(&self, message: &str) {
        println!("{}", message);
    }
}

#[test]
fn test_interpreter() {
    let mut x = Interpreter::init_with_logger(PrintLoggerRepository {});
    assert_eq!(x.interpret("42"), Ok(Some("42".to_string())));
    assert_eq!(x.interpret("5+20-4"), Ok(Some("21".to_string())));
    assert_eq!(x.interpret("5 - 3"), Ok(Some("2".to_string())));
    assert_eq!(x.interpret("5+6*7"), Ok(Some("47".to_string())));
    assert_eq!(x.interpret("5*(9-6)"), Ok(Some("15".to_string())));
    assert_eq!(x.interpret("(3+5) / 2"), Ok(Some("4".to_string())));
    assert_eq!(x.interpret("-10+(+20)"), Ok(Some("10".to_string())));
    assert_eq!(x.interpret("$a=-10+(+20)"), Ok(Some("10".to_string())));
    assert_eq!(x.interpret("$a=$b * $a"), Err(InterpreterError::UndefinedVariable));
    assert_eq!(x.interpret("$absc = 100"), Ok(Some("100".to_string())));
}

#[test]
fn test_numeral_round_trip() {
    let mut x = Interpreter::init();
    assert_eq!(x.interpret("0"), Ok(Some("0".to_string())));
    assert_eq!(x.interpret("7"), Ok(Some("7".to_string())));
    assert_eq!(x.interpret("2147483647"), Ok(Some("2147483647".to_string())));
}

#[test]
fn test_numeral_too_large() {
    let mut x = Interpreter::init();
    assert_eq!(x.interpret("2147483648"), Err(InterpreterError::InvalidSource));
}

#[test]
fn test_division_truncation() {
    let mut x = Interpreter::init();
    assert_eq!(x.interpret("7/2"), Ok(Some("3".to_string())));
}

#[test]
fn test_division_by_zero() {
    let mut x = Interpreter::init();
    assert_eq!(x.interpret("1/0"), Err(InterpreterError::CalculationError));
}

#[test]
fn test_assignment_and_lookup() {
    let mut x = Interpreter::init();
    assert_eq!(x.interpret("$a=5"), Ok(Some("5".to_string())));
    assert_eq!(x.interpret("$a"), Ok(Some("5".to_string())));
}

#[test]
fn test_undefined_variable() {
    let mut x = Interpreter::init();
    assert_eq!(x.interpret("$b*$a"), Err(InterpreterError::UndefinedVariable));
}

#[test]
fn test_lexing_failure() {
    let mut x = Interpreter::init();
    assert_eq!(x.interpret("5 @ 3"), Err(InterpreterError::Untokenized));
    assert_eq!(x.interpret("5 - 3 @"), Err(InterpreterError::Untokenized));
}

#[test]
fn test_unexpected_symbol() {
    let mut x = Interpreter::init();
    assert_eq!(x.interpret("5+*"), Err(InterpreterError::Unexpected));
}

#[test]
fn test_malformed_structure() {
    let mut x = Interpreter::init();
    assert_eq!(x.interpret("(1"), Err(InterpreterError::SyntaxError));
    assert_eq!(x.interpret("( )"), Err(InterpreterError::SyntaxError));
    assert_eq!(x.interpret(""), Err(InterpreterError::SyntaxError));
    assert_eq!(x.interpret("   "), Err(InterpreterError::SyntaxError));
}

#[test]
fn test_unterminated_quote() {
    let mut x = Interpreter::init();
    assert_eq!(x.interpret("\"abc"), Err(InterpreterError::SyntaxError));
}

#[test]
fn test_quoted_strings() {
    let mut x = Interpreter::init();
    assert_eq!(x.interpret("'ab'"), Ok(Some("ab".to_string())));
    assert_eq!(x.interpret("\"ab cd\""), Ok(Some("abcd".to_string())));
}

#[test]
fn test_type_mismatch() {
    let mut x = Interpreter::init();
    assert_eq!(x.interpret("1+'a'"), Err(InterpreterError::TypeMismatch));
}

#[test]
fn test_variable_syntax_error() {
    let mut x = Interpreter::init();
    assert_eq!(x.interpret("1+$*2"), Err(InterpreterError::SyntaxError));
}

#[test]
fn test_build_idempotent() {
    let mut t1 = Tokenizer::init();
    assert_eq!(t1.tokenize("5+6*7 ; $a = 2"), Ok(()));
    let mut b1 = AstBuilder::init(t1);
    let ast1 = b1.build();

    let mut t2 = Tokenizer::init();
    assert_eq!(t2.tokenize("5+6*7 ; $a = 2"), Ok(()));
    let mut b2 = AstBuilder::init(t2);
    let ast2 = b2.build();

    assert_eq!(ast1, ast2);

    let mut x1 = Interpreter::init();
    let mut x2 = Interpreter::init();
    assert_eq!(x1.interpret("5+6*7"), x2.interpret("5+6*7"));
}

#[test]
fn test_return_statement() {
    let mut x = Interpreter::init();
    // a leading bare word, `return` included, names the program to call;
    // only after the first word does `return` act as the keyword
    assert_eq!(x.interpret("$r = $(return 1+2)"), Ok(Some("3".to_string())));
}

#[test]
fn test_leading_word_is_a_call() {
    let mut x = Interpreter::init();
    // a bare leading word is read as a program name; no operator backs it
    assert_eq!(x.interpret("ls"), Err(InterpreterError::CalculationError));
}
