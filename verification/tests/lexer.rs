use waygum::lexer::Lexer;
use waygum::token::Token;

#[test]
fn lexer_section() {
    let input = String::from("@ Section");
    let lexer = Lexer::new(input);
    let tokens = lexer.tokenize().unwrap();
    assert_eq!(tokens, vec![Token::Section(String::from("Section")), Token::EOF]);
}

#[test]
fn lexer_subsection() {
    let input = String::from("@@ Subsection");
    let lexer = Lexer::new(input);
    let tokens = lexer.tokenize().unwrap();
    assert_eq!(tokens, vec![Token::Subsection(String::from("Subsection")), Token::EOF]);
}

#[test]
fn lexer_subsubsection() {
    let input = String::from("@@@ Subsubsection");
    let lexer = Lexer::new(input);
    let tokens = lexer.tokenize().unwrap();
    assert_eq!(tokens, vec![Token::Subsubsection(String::from("Subsubsection")), Token::EOF]);
}

#[test]
fn lexer_list() {
    let input = String::from("- List");
    let lexer = Lexer::new(input);
    let tokens = lexer.tokenize().unwrap();
    assert_eq!(tokens, vec![Token::List { depth: 1, text: String::from("List") }, Token::EOF]);
}

#[test]
fn lexer_quote() {
    let input = String::from("> Quote");
    let lexer = Lexer::new(input);
    let tokens = lexer.tokenize().unwrap();
    assert_eq!(tokens, vec![Token::Quote(String::from("Quote")), Token::EOF]);
}

#[test]
fn table() {
    let input = String::from("| Col1 | Col2 | Col3 |");
    let lexer = Lexer::new(input);
    let tokens = lexer.tokenize().unwrap();
    assert_eq!(
        tokens,
        vec![
            Token::Table(
                vec![String::from("Col1"), String::from("Col2"), String::from("Col3")]
            ),
            Token::EOF
        ]
    );
}

#[test]
fn image() {
    let input = String::from("![Caption](path/to/image)");
    let lexer = Lexer::new(input);
    let tokens = lexer.tokenize().unwrap();
    assert_eq!(
        tokens,
        vec![
            Token::Image {
                caption: String::from("Caption"),
                path: String::from("path/to/image"),
            },
            Token::EOF
        ]
    );
}

#[test]
fn codeblock() {
    let input = String::from(
        "$$$\n#include<iostream>\nint main() {\n\tstd::cout << \"Hello World!\" << std::endl;\n}\n$$$"
    );
    let lexer = Lexer::new(input);
    let tokens = lexer.tokenize().unwrap();
    assert_eq!(
        tokens,
        vec![
            Token::Codeblock(
                String::from(
                    "#include<iostream>\nint main() {\n\tstd::cout << \"Hello World!\" << std::endl;\n}\n"
                )
            ),
            Token::EOF
        ]
    );
}

#[test]
fn text() {
    let input = String::from("Text");
    let lexer = Lexer::new(input);
    let tokens = lexer.tokenize().unwrap();
    assert_eq!(tokens, vec![Token::Text(String::from("Text")), Token::EOF]);
}

#[test]
fn text_with_newline() {
    let input = String::from("Text\n");
    let lexer = Lexer::new(input);
    let tokens = lexer.tokenize().unwrap();
    assert_eq!(tokens, vec![Token::Text(String::from("Text")), Token::EOF]);
}

#[test]
fn text_with_newline_and_space() {
    let input = String::from("Text\n ");
    let lexer = Lexer::new(input);
    let tokens = lexer.tokenize().unwrap();
    assert_eq!(tokens, vec![Token::Text(String::from("Text")), Token::EOF]);
}

#[test]
fn text_with_newline_and_tab() {
    let input = String::from("Text\n\t");
    let lexer = Lexer::new(input);
    let tokens = lexer.tokenize().unwrap();
    assert_eq!(tokens, vec![Token::Text(String::from("Text")), Token::EOF]);
}

#[test]
fn text_with_newline_and_space_and_tab() {
    let input = String::from("Text\n \t");
    let lexer = Lexer::new(input);
    let tokens = lexer.tokenize().unwrap();
    assert_eq!(tokens, vec![Token::Text(String::from("Text")), Token::EOF]);
}

#[test]
fn text_with_newline_and_tab_and_space() {
    let input = String::from("Text\n\t ");
    let lexer = Lexer::new(input);
    let tokens = lexer.tokenize().unwrap();
    assert_eq!(tokens, vec![Token::Text(String::from("Text")), Token::EOF]);
}

#[test]
fn text_with_newline_and_tab_and_space_and_text() {
    let input = String::from("Text\n\t Text");
    let lexer = Lexer::new(input);
    let tokens = lexer.tokenize().unwrap();
    assert_eq!(
        tokens,
        vec![Token::Text(String::from("Text")), Token::Text(String::from("Text")), Token::EOF]
    );
}

#[test]
fn text_with_newline_and_tab_and_space_and_text_and_newline() {
    let input = String::from("Text\n\t Text\n");
    let lexer = Lexer::new(input);
    let tokens = lexer.tokenize().unwrap();
    assert_eq!(
        tokens,
        vec![Token::Text(String::from("Text")), Token::Text(String::from("Text")), Token::EOF]
    );
}

#[test]
fn basic_all() {
    let input = String::from(
        "@ Heading\n\nText\n\n> Quote\n\n| Col1 | Col2 | Col3 |\n\n![Caption](path/to/image)\n\n$$$\n#include<iostream>\nint main() {\n\tstd::cout << \"Hello World!\" << std::endl;\n}\n$$$"
    );
    let lexer = Lexer::new(input);
    let tokens = lexer.tokenize().unwrap();
    assert_eq!(
        tokens,
        vec![
            Token::Section(String::from("Heading")),
            Token::Text(String::from("Text")),
            Token::Quote(String::from("Quote")),
            Token::Table(
                vec![String::from("Col1"), String::from("Col2"), String::from("Col3")]
            ),
            Token::Image {
                caption: String::from("Caption"),
                path: String::from("path/to/image"),
            },
            Token::Codeblock(
                String::from(
                    "#include<iostream>\nint main() {\n\tstd::cout << \"Hello World!\" << std::endl;\n}\n"
                )
            ),
            Token::EOF
        ]
    );
}

#[test]
fn basic_all_with_newline() {
    let input = String::from(
        "@ Heading\n\nText\n\n> Quote\n\n| Col1 | Col2 | Col3 |\n\n![Caption](path/to/image)\n\n$$$\n#include<iostream>\nint main() {\n\tstd::cout << \"Hello World!\" << std::endl;\n}\n$$$\n"
    );
    let lexer = Lexer::new(input);
    let tokens = lexer.tokenize().unwrap();
    assert_eq!(
        tokens,
        vec![
            Token::Section(String::from("Heading")),
            Token::Text(String::from("Text")),
            Token::Quote(String::from("Quote")),
            Token::Table(
                vec![String::from("Col1"), String::from("Col2"), String::from("Col3")]
            ),
            Token::Image {
                caption: String::from("Caption"),
                path: String::from("path/to/image"),
            },
            Token::Codeblock(
                String::from(
                    "#include<iostream>\nint main() {\n\tstd::cout << \"Hello World!\" << std::endl;\n}\n"
                )
            ),
            Token::EOF
        ]
    );
}

#[test]
fn complex_all() {
    let input = String::from(
        "@ Heading\n\nText\n\n> Quote\n\n| Col1 | Col2 | Col3 |\n\n![Caption](path/to/image)\n\n$$$\n#include<iostream>\nint main() {\n\tstd::cout << \"Hello World!\" << std::endl;\n}\n$$$\n\n@@ Heading 2\n\nText 2\n\n> Quote 2\n\n| Col1 | Col2 | Col3 |\n\n![Caption 2](path/to/image/2)\n\n$$$\n#include<iostream>\nint main() {\n\tstd::cout << \"Hello World!\" << std::endl;\n}\n$$$"
    );
    let lexer = Lexer::new(input);
    let tokens = lexer.tokenize().unwrap();
    assert_eq!(
        tokens,
        vec![
            Token::Section(String::from("Heading")),
            Token::Text(String::from("Text")),
            Token::Quote(String::from("Quote")),
            Token::Table(
                vec![String::from("Col1"), String::from("Col2"), String::from("Col3")]
            ),
            Token::Image {
                caption: String::from("Caption"),
                path: String::from("path/to/image"),
            },
            Token::Codeblock(
                String::from(
                    "#include<iostream>\nint main() {\n\tstd::cout << \"Hello World!\" << std::endl;\n}\n"
                )
            ),
            Token::Subsection(String::from("Heading 2")),
            Token::Text(String::from("Text 2")),
            Token::Quote(String::from("Quote 2")),
            Token::Table(
                vec![String::from("Col1"), String::from("Col2"), String::from("Col3")]
            ),
            Token::Image {
                caption: String::from("Caption 2"),
                path: String::from("path/to/image/2"),
            },
            Token::Codeblock(
                String::from(
                    "#include<iostream>\nint main() {\n\tstd::cout << \"Hello World!\" << std::endl;\n}\n"
                )
            ),
            Token::EOF
        ]
    );
}

#[test]
fn complex_all_with_newline() {
    let input = String::from(
        "@ Heading\n\nText\n\n> Quote\n\n| Col1 | Col2 | Col3 |\n\n![Caption](path/to/image)\n\n$$$\n#include<iostream>\nint main() {\n\tstd::cout << \"Hello World!\" << std::endl;\n}\n$$$\n\n@@ Heading 2\n\nText 2\n\n> Quote 2\n\n| Col1 | Col2 | Col3 |\n\n![Caption 2](path/to/image/2)\n\n$$$\n#include<iostream>\nint main() {\n\tstd::cout << \"Hello World!\" << std::endl;\n}\n$$$\n"
    );
    let lexer = Lexer::new(input);
    let tokens = lexer.tokenize().unwrap();
    assert_eq!(
        tokens,
        vec![
            Token::Section(String::from("Heading")),
            Token::Text(String::from("Text")),
            Token::Quote(String::from("Quote")),
            Token::Table(
                vec![String::from("Col1"), String::from("Col2"), String::from("Col3")]
            ),
            Token::Image {
                caption: String::from("Caption"),
                path: String::from("path/to/image"),
            },
            Token::Codeblock(
                String::from(
                    "#include<iostream>\nint main() {\n\tstd::cout << \"Hello World!\" << std::endl;\n}\n"
                )
            ),
            Token::Subsection(String::from("Heading 2")),
            Token::Text(String::from("Text 2")),
            Token::Quote(String::from("Quote 2")),
            Token::Table(
                vec![String::from("Col1"), String::from("Col2"), String::from("Col3")]
            ),
            Token::Image {
                caption: String::from("Caption 2"),
                path: String::from("path/to/image/2"),
            },
            Token::Codeblock(
                String::from(
                    "#include<iostream>\nint main() {\n\tstd::cout << \"Hello World!\" << std::endl;\n}\n"
                )
            ),
            Token::EOF
        ]
    );
}

#[test]
fn non_assert_sample_doc() {
    let sample = String::from(
        r#"@ Learning C++
/ Learning Objectives: Learn the basics of C++ /

@@ History of C++
C++ was developed by Bjarne Stroustrup at Bell Labs in the 1980s. It was originally called C with Classes, but was renamed C++ in 1983. C++ is a superset of C, which means that all valid C programs are also valid C++ programs. C++ is an object-oriented language, which means that it is designed to allow programmers to create their own data types. C++ is a compiled language, which means that it must be translated into machine code before it can be run. C++ is a statically typed language, which means that the type of a variable must be known at compile time. C++ is a strongly typed language, which means that the type of a variable cannot be changed. C++ is a case-sensitive language, which means that the names of variables, functions, and classes are case-sensitive. C++ is a free-form language, which means that the programmer can choose how to format the code. C++ is a multi-paradigm language, which means that it supports multiple programming styles. C++ is a general-purpose language, which means that it can be used to write any type of program.

> C++ was developed by Bjarne Stroustrup

!bjarne-stroustrup.jpg!Bjarne Stroustrup at the 2012 C++Now conference.

@@ Some Characterisitcs of C++
- Object oriented
- Compiled
-- Translated into machine code
- Statically typed
- Strongly typed
- Case-sensitive
- Free-form
- Multi-paradigm
- General-purpose

@@ Sample C++ Program
$$$
#include <iostream>

int main() {
	std::cout << "Hello, World!" << std::endl;
	return 0;
}
$$$

/ This program prints "Hello, World!" to the screen. /

@@ Compiling C++ Programs
C++ programs must be compiled before they can be run. The compiler translates the C++ code into machine code. The compiler is usually called g++ on Linux and Mac OS X, and cl on Windows. The compiler is usually invoked with the following command:
$$$
g++ -o program program.cpp
$$$
/ This command compiles the C++ program program.cpp and creates an executable program. /

@@ Running C++ Programs
C++ programs are run by executing the executable file that was created by the compiler. The executable file is usually called a.out on Linux and Mac OS X, and program.exe on Windows. The executable file is usually invoked with the following command:
$$$
./a.out
$$$
/ This command runs the C++ program a.out. /

@@ Keywords
C++ has a number of keywords that are reserved and cannot be used as variable names. The following is a list of the most commonly used keywords:
| name | description |
| int | integer |
| float | floating-point number |
| double | double-precision floating-point number |
| char | character |
| bool | boolean |
| void | no return value |
| true | boolean true |
| false | boolean false |
| if | if statement |
| else | else statement |
| while | while loop |
| for | for loop |
| break | break statement |
| continue | continue statement |
| return | return statement |"#
    );
    let lexer = Lexer::new(sample);
    let tokens = lexer.tokenize().unwrap();
    println!("{:?}", tokens);
}

#[test]
fn button() {
    let input = String::from("#![Button]{https://example.com}");
    let lexer = Lexer::new(input);
    let tokens = lexer.tokenize().unwrap();
    assert_eq!(
        tokens,
        vec![
            Token::Button {
                text: String::from("Button"),
                link: String::from("https://example.com"),
            },
            Token::EOF
        ]
    );
}
