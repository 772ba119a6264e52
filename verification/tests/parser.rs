use waygum::artefact::ParseArtefact;
use waygum::inline::{Text, TextArtefact};
use waygum::lexer::Lexer;
use waygum::parser::Parser;

#[test]
fn parse_empty() {
    let lexer = Lexer::new(String::from(""));
    let tokens = lexer.tokenize().unwrap();
    let mut parser = Parser::new(tokens);
    let parse_result = parser.parse().unwrap();
    assert_eq!(parse_result, Vec::<ParseArtefact>::new());
}

#[test]
fn parse_text() {
    let lexer = Lexer::new(String::from("Hello world!"));
    let tokens = lexer.tokenize().unwrap();
    let mut parser = Parser::new(tokens);
    let parse_result = parser.parse().unwrap();
    println!("{:?}", parse_result);
    assert_eq!(
        parse_result,
        vec![
            ParseArtefact::Paragraph(
                vec![Text(vec![TextArtefact::Raw(String::from("Hello world!"))])]
            )
        ]
    );
}

// Style tests
#[test]
fn parse_bold() {
    let lexer = Lexer::new(String::from("*Hello world!*"));
    let tokens = lexer.tokenize().unwrap();
    let mut parser = Parser::new(tokens);
    let parse_result = parser.parse().unwrap();
    println!("{:?}", parse_result);
    assert_eq!(
        parse_result,
        vec![
            ParseArtefact::Paragraph(
                vec![Text(vec![TextArtefact::Bold(String::from("Hello world!"))])]
            )
        ]
    );
}

#[test]
fn parse_italics() {
    let lexer = Lexer::new(String::from("/Hello world!/"));
    let tokens = lexer.tokenize().unwrap();
    let mut parser = Parser::new(tokens);
    let parse_result = parser.parse().unwrap();
    println!("{:?}", parse_result);
    assert_eq!(
        parse_result,
        vec![
            ParseArtefact::Paragraph(
                vec![Text(vec![TextArtefact::Italics(String::from("Hello world!"))])]
            )
        ]
    );
}

#[test]
fn parse_underline() {
    let lexer = Lexer::new(String::from("_Hello world!_"));
    let tokens = lexer.tokenize().unwrap();
    let mut parser = Parser::new(tokens);
    let parse_result = parser.parse().unwrap();
    println!("{:?}", parse_result);
    assert_eq!(
        parse_result,
        vec![
            ParseArtefact::Paragraph(
                vec![Text(vec![TextArtefact::Underline(String::from("Hello world!"))])]
            )
        ]
    );
}

#[test]
fn parse_strikethrough() {
    let lexer = Lexer::new(String::from("~Hello world!~"));
    let tokens = lexer.tokenize().unwrap();
    let mut parser = Parser::new(tokens);
    let parse_result = parser.parse().unwrap();
    println!("{:?}", parse_result);
    assert_eq!(
        parse_result,
        vec![
            ParseArtefact::Paragraph(
                vec![Text(vec![TextArtefact::Strikethrough(String::from("Hello world!"))])]
            )
        ]
    );
}

#[test]
fn parse_code() {
    let lexer = Lexer::new(String::from("$Hello world!$"));
    let tokens = lexer.tokenize().unwrap();
    let mut parser = Parser::new(tokens);
    let parse_result = parser.parse().unwrap();
    println!("{:?}", parse_result);
    // `$` marks no span: the line stays plain text.
    assert_eq!(
        parse_result,
        vec![
            ParseArtefact::Paragraph(
                vec![Text(vec![TextArtefact::Raw(String::from("$Hello world!$"))])]
            )
        ]
    );
    let lexer = Lexer::new(String::from("`Hello world!`"));
    let tokens = lexer.tokenize().unwrap();
    let mut parser = Parser::new(tokens);
    let parse_result = parser.parse().unwrap();
    assert_eq!(
        parse_result,
        vec![
            ParseArtefact::Paragraph(
                vec![Text(vec![TextArtefact::Code(String::from("Hello world!"))])]
            )
        ]
    );
}

#[test]
fn parse_link() {
    let lexer = Lexer::new(String::from("![Hello world!](https://example.com)"));
    let tokens = lexer.tokenize().unwrap();
    let mut parser = Parser::new(tokens);
    let parse_result = parser.parse().unwrap();
    println!("{:?}", parse_result);
    // A whole line of this shape is a block image.
    assert_eq!(
        parse_result,
        vec![
            ParseArtefact::Image(
                String::from("Hello world!"),
                String::from("https://example.com")
            )
        ]
    );
    // Inside a line it is a link.
    let lexer = Lexer::new(String::from("See ![Hello world!](https://example.com)"));
    let tokens = lexer.tokenize().unwrap();
    let mut parser = Parser::new(tokens);
    let parse_result = parser.parse().unwrap();
    assert_eq!(
        parse_result,
        vec![
            ParseArtefact::Paragraph(
                vec![
                    Text(
                        vec![
                            TextArtefact::Raw(String::from("See ")),
                            TextArtefact::Link(
                                String::from("Hello world!"),
                                String::from("https://example.com")
                            )
                        ]
                    )
                ]
            )
        ]
    );
}

#[test]
fn parse_image() {
    let lexer = Lexer::new(String::from("#[Hello world!](https://example.com)"));
    let tokens = lexer.tokenize().unwrap();
    let mut parser = Parser::new(tokens);
    let parse_result = parser.parse().unwrap();
    println!("{:?}", parse_result);
    // Neither an image nor a button: a line of text, in which the two
    // slashes enclose an empty span.
    assert_eq!(
        parse_result,
        vec![
            ParseArtefact::Paragraph(
                vec![
                    Text(
                        vec![
                            TextArtefact::Raw(String::from("#[Hello world!](https:")),
                            TextArtefact::Italics(String::new()),
                            TextArtefact::Raw(String::from("example.com)"))
                        ]
                    )
                ]
            )
        ]
    );
    let lexer = Lexer::new(String::from("![Hello world!](pictures.example.com)"));
    let tokens = lexer.tokenize().unwrap();
    let mut parser = Parser::new(tokens);
    let parse_result = parser.parse().unwrap();
    assert_eq!(
        parse_result,
        vec![
            ParseArtefact::Image(
                String::from("Hello world!"),
                String::from("pictures.example.com")
            )
        ]
    );
}

#[test]
fn parse_section() {
    let lexer = Lexer::new(String::from("@ Hello world!"));
    let tokens = lexer.tokenize().unwrap();
    let mut parser = Parser::new(tokens);
    let parse_result = parser.parse().unwrap();
    println!("{:?}", parse_result);
    assert_eq!(
        parse_result,
        vec![
            ParseArtefact::Section(1, Text(vec![TextArtefact::Raw(String::from("Hello world!"))]))
        ]
    );
}

#[test]
fn parse_subsection() {
    let lexer = Lexer::new(String::from("@@ Hello world!"));
    let tokens = lexer.tokenize().unwrap();
    let mut parser = Parser::new(tokens);
    let parse_result = parser.parse().unwrap();
    println!("{:?}", parse_result);
    // No section came before: its number is zero.
    assert_eq!(
        parse_result,
        vec![
            ParseArtefact::Subsection(
                0,
                1,
                Text(vec![TextArtefact::Raw(String::from("Hello world!"))])
            )
        ]
    );
}

#[test]
fn parse_subsubsection() {
    let lexer = Lexer::new(String::from("@@@ Hello world!"));
    let tokens = lexer.tokenize().unwrap();
    let mut parser = Parser::new(tokens);
    let parse_result = parser.parse().unwrap();
    println!("{:?}", parse_result);
    assert_eq!(
        parse_result,
        vec![
            ParseArtefact::Subsubsection(
                0,
                0,
                1,
                Text(vec![TextArtefact::Raw(String::from("Hello world!"))])
            )
        ]
    );
}

#[test]
fn parse_list() {
    let lexer = Lexer::new(String::from("- Hello world!"));
    let tokens = lexer.tokenize().unwrap();
    let mut parser = Parser::new(tokens);
    let parse_result = parser.parse().unwrap();
    println!("{:?}", parse_result);
    assert_eq!(
        parse_result,
        vec![
            ParseArtefact::List(
                vec![
                    ParseArtefact::ListItem(
                        Text(vec![TextArtefact::Raw(String::from("Hello world!"))])
                    )
                ]
            )
        ]
    );
}

#[test]
fn parse_multilevel_list() {
    let lexer = Lexer::new(String::from("- Hello world!\n-- Hello world!\n-Hello world!"));
    let tokens = lexer.tokenize().unwrap();
    let mut parser = Parser::new(tokens);
    let parse_result = parser.parse().unwrap();
    println!("{:?}", parse_result);
    assert_eq!(
        parse_result,
        vec![
            ParseArtefact::List(
                vec![
                    ParseArtefact::ListItem(
                        Text(vec![TextArtefact::Raw(String::from("Hello world!"))])
                    ),
                    ParseArtefact::List(
                        vec![
                            ParseArtefact::ListItem(
                                Text(vec![TextArtefact::Raw(String::from("Hello world!"))])
                            )
                        ]
                    ),
                    ParseArtefact::ListItem(
                        Text(vec![TextArtefact::Raw(String::from("Hello world!"))])
                    )
                ]
            )
        ]
    );
}

#[test]
fn parse_multilevel_list_with_paragraph() {
    let lexer = Lexer::new(
        String::from("- Hello world!\n-- Hello world!\n-Hello world!\n\nHello world!")
    );
    let tokens = lexer.tokenize().unwrap();
    let mut parser = Parser::new(tokens);
    let parse_result = parser.parse().unwrap();
    println!("{:?}", parse_result);
    assert_eq!(
        parse_result,
        vec![
            ParseArtefact::List(
                vec![
                    ParseArtefact::ListItem(
                        Text(vec![TextArtefact::Raw(String::from("Hello world!"))])
                    ),
                    ParseArtefact::List(
                        vec![
                            ParseArtefact::ListItem(
                                Text(vec![TextArtefact::Raw(String::from("Hello world!"))])
                            )
                        ]
                    ),
                    ParseArtefact::ListItem(
                        Text(vec![TextArtefact::Raw(String::from("Hello world!"))])
                    )
                ]
            ),
            ParseArtefact::Paragraph(
                vec![Text(vec![TextArtefact::Raw(String::from("Hello world!"))])]
            )
        ]
    );
}

#[test]
fn parse_table() {
    let lexer = Lexer::new(String::from("| Hello world! | Hello world! |"));
    let tokens = lexer.tokenize().unwrap();
    let mut parser = Parser::new(tokens);
    let parse_result = parser.parse().unwrap();
    println!("{:?}", parse_result);
    assert_eq!(
        parse_result,
        vec![
            ParseArtefact::Table(
                vec![
                    ParseArtefact::TableRow(
                        vec![
                            Text(vec![TextArtefact::Raw(String::from("Hello world!"))]),
                            Text(vec![TextArtefact::Raw(String::from("Hello world!"))])
                        ]
                    )
                ]
            )
        ]
    );
}

#[test]
fn parse_multiline_table() {
    let lexer = Lexer::new(
        String::from("| Hello world! | Hello world! |\n| Hello world! | Hello world! |")
    );
    let tokens = lexer.tokenize().unwrap();
    let mut parser = Parser::new(tokens);
    let parse_result = parser.parse().unwrap();
    println!("{:?}", parse_result);
    assert_eq!(
        parse_result,
        vec![
            ParseArtefact::Table(
                vec![
                    ParseArtefact::TableRow(
                        vec![
                            Text(vec![TextArtefact::Raw(String::from("Hello world!"))]),
                            Text(vec![TextArtefact::Raw(String::from("Hello world!"))])
                        ]
                    ),
                    ParseArtefact::TableRow(
                        vec![
                            Text(vec![TextArtefact::Raw(String::from("Hello world!"))]),
                            Text(vec![TextArtefact::Raw(String::from("Hello world!"))])
                        ]
                    )
                ]
            )
        ]
    );
}

#[test]
fn parse_multiline_table_with_paragraph() {
    let lexer = Lexer::new(
        String::from(
            "| Hello world! | Hello world! |\n| Hello world! | Hello world! |\n\nHello world!"
        )
    );
    let tokens = lexer.tokenize().unwrap();
    let mut parser = Parser::new(tokens);
    let parse_result = parser.parse().unwrap();
    println!("{:?}", parse_result);
    assert_eq!(
        parse_result,
        vec![
            ParseArtefact::Table(
                vec![
                    ParseArtefact::TableRow(
                        vec![
                            Text(vec![TextArtefact::Raw(String::from("Hello world!"))]),
                            Text(vec![TextArtefact::Raw(String::from("Hello world!"))])
                        ]
                    ),
                    ParseArtefact::TableRow(
                        vec![
                            Text(vec![TextArtefact::Raw(String::from("Hello world!"))]),
                            Text(vec![TextArtefact::Raw(String::from("Hello world!"))])
                        ]
                    )
                ]
            ),
            ParseArtefact::Paragraph(
                vec![Text(vec![TextArtefact::Raw(String::from("Hello world!"))])]
            )
        ]
    );
}

#[test]
fn parse_multiline_table_with_list() {
    let lexer = Lexer::new(
        String::from(
            "| Hello world! | Hello world! |\n| Hello world! | Hello world! |\n\n- Hello world!"
        )
    );
    let tokens = lexer.tokenize().unwrap();
    let mut parser = Parser::new(tokens);
    let parse_result = parser.parse().unwrap();
    println!("{:?}", parse_result);
    assert_eq!(
        parse_result,
        vec![
            ParseArtefact::Table(
                vec![
                    ParseArtefact::TableRow(
                        vec![
                            Text(vec![TextArtefact::Raw(String::from("Hello world!"))]),
                            Text(vec![TextArtefact::Raw(String::from("Hello world!"))])
                        ]
                    ),
                    ParseArtefact::TableRow(
                        vec![
                            Text(vec![TextArtefact::Raw(String::from("Hello world!"))]),
                            Text(vec![TextArtefact::Raw(String::from("Hello world!"))])
                        ]
                    )
                ]
            ),
            ParseArtefact::List(
                vec![
                    ParseArtefact::ListItem(
                        Text(vec![TextArtefact::Raw(String::from("Hello world!"))])
                    )
                ]
            )
        ]
    );
}

#[test]
fn sample_document_no_assert() {
    let lexer = Lexer::new(
        String::from(
            r#"@ Learning C++
/ Learning Objectives: Learn the basics of C++ /

@@ History of C++
C++ was developed by Bjarne Stroustrup at Bell Labs in the 1980s. It was originally called C with Classes, but was renamed C++ in 1983. C++ is a superset of C, which means that all valid C programs are also valid C++ programs. C++ is an object-oriented language, which means that it is designed to allow programmers to create their own data types. C++ is a compiled language, which means that it must be translated into machine code before it can be run. C++ is a statically typed language, which means that the type of a variable must be known at compile time. C++ is a strongly typed language, which means that the type of a variable cannot be changed. C++ is a case-sensitive language, which means that the names of variables, functions, and classes are case-sensitive. C++ is a free-form language, which means that the programmer can choose how to format the code. C++ is a multi-paradigm language, which means that it supports multiple programming styles. C++ is a general-purpose language, which means that it can be used to write any type of program.

> C++ was developed by Bjarne Stroustrup

!bjarne-stroustrup.jpg!Bjarne Stroustrup at the 2012 C++Now conference.

@@ Some Characterisitcs of C++
- Object oriented
- Compiled
-- Translated into machine code
- Statically typed
- Strongly typed
- Case-sensitive
- Free-form
- Multi-paradigm
- General-purpose

@@ Sample C++ Program
$$$
#include <iostream>

int main() {
	std::cout << "Hello, World!" << std::endl;
	return 0;
}
$$$

/ This program prints "Hello, World!" to the screen. /

@@ Compiling C++ Programs
C++ programs must be compiled before they can be run. The compiler translates the C++ code into machine code. The compiler is usually called g++ on Linux and Mac OS X, and cl on Windows. The compiler is usually invoked with the following command:
$$$
g++ -o program program.cpp
$$$
/ This command compiles the C++ program program.cpp and creates an executable program. /

@@ Running C++ Programs
C++ programs are run by executing the executable file that was created by the compiler. The executable file is usually called a.out on Linux and Mac OS X, and program.exe on Windows. The executable file is usually invoked with the following command:
$$$
./a.out
$$$
/ This command runs the C++ program a.out. /

@@ Keywords
C++ has a number of keywords that are reserved and cannot be used as variable names. The following is a list of the most commonly used keywords:
| name | description |
| int | integer |
| float | floating-point number |
| double | double-precision floating-point number |
| char | character |
| bool | boolean |
| void | no return value |
| true | boolean true |
| false | boolean false |
| if | if statement |
| else | else statement |
| while | while loop |
| for | for loop |
| break | break statement |
| continue | continue statement |
| return | return statement |"#
        )
    );
    let tokens = lexer.tokenize().unwrap();
    let mut parser = Parser::new(tokens);
    let parse_result = parser.parse().unwrap();
    println!("{:?}", parse_result);
}

#[test]
fn parser_sample_document() {
    let lexer = Lexer::new(
        String::from(
            r#"@ Code Block
$$$
// Sample javascript express server
const express = require('express');
const app = express();
const port = 3000;

app.use(express.json());

app.get('/', (req, res) => {
	res.send('Hello World!');
});

app.listen(port, () => {
	console.log(`Example app listening at http://localhost:${port}`);
});

$$$
"#
        )
    );
    let tokens = lexer.tokenize().unwrap();
    assert_eq!(tokens.len(), 3);
}
