use waygum::lexer::Lexer;
use waygum::parser::Parser;

#[test]
fn sanity() {
    assert_eq!(1, 1);
}

#[test]
fn test_lexer() {
    let lexer = Lexer::new(String::from(r#"@ Learning C++

This is a sample learning C++ document. 

/ This is an italics comment. /"#));
    let tokens = lexer.tokenize().unwrap();
    println!("{:?}", tokens);
    println!();
    let mut parser = Parser::new(tokens);
    let parsed = parser.parse().unwrap();
    println!("{:?}", parsed);
}
