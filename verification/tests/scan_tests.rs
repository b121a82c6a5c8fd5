use cvrp::tsplib_parser::header::parse_key_value;
use cvrp::tsplib_parser::number::read_number;
use cvrp::tsplib_parser::scan::{byte_in_class, bytes_equal, skip_run, word_at, ByteClass};

type Outcome<'a, O> = nom::IResult<&'a str, O, nom::error::Error<&'a str>>;

const TEXTS: [&str; 16] = [
    "",
    " ",
    "  \t x",
    "\t\t",
    "\n \r\n\t  word",
    "abc def",
    "123abc",
    "123 456",
    "9",
    "no space here",
    "   12.5 \n",
    "\r\n\r\n",
    " \t\n",
    "x",
    "0042\t",
    "line one\nline two",
];

fn rest_after(text: &str, end: usize) -> &str {
    &text[end..]
}

#[test]
fn runs_end_where_the_recognisers_of_nom_end_them() {
    for text in TEXTS {
        let bytes = text.as_bytes();
        let blanks: Outcome<&str> = nom::character::complete::space0(text);
        assert_eq!(rest_after(text, skip_run(bytes, 0, ByteClass::Blank)), blanks.unwrap().0);
        let spaces: Outcome<&str> = nom::character::complete::multispace0(text);
        assert_eq!(rest_after(text, skip_run(bytes, 0, ByteClass::Space)), spaces.unwrap().0);
        let digits: Outcome<&str> = nom::character::complete::digit0(text);
        assert_eq!(rest_after(text, skip_run(bytes, 0, ByteClass::Digit)), digits.unwrap().0);
        if !text.contains('\r') {
            let line: Outcome<&str> = nom::character::complete::not_line_ending(text);
            assert_eq!(rest_after(text, skip_run(bytes, 0, ByteClass::LineText)), line.unwrap().0);
        }
    }
}

#[test]
fn runs_can_begin_anywhere() {
    let text = b"ab  12\t\n cd";
    assert_eq!(skip_run(text, 2, ByteClass::Blank), 4);
    assert_eq!(skip_run(text, 4, ByteClass::Digit), 6);
    assert_eq!(skip_run(text, 6, ByteClass::Space), 9);
    assert_eq!(skip_run(text, 6, ByteClass::Blank), 7);
    assert_eq!(skip_run(text, 0, ByteClass::LineText), 7);
    assert_eq!(skip_run(text, 9, ByteClass::Space), 9);
    assert_eq!(skip_run(text, 11, ByteClass::Space), 11);
    assert!(byte_in_class(ByteClass::Blank, b' '));
    assert!(!byte_in_class(ByteClass::Blank, b'\n'));
    assert!(byte_in_class(ByteClass::Space, b'\r'));
    assert!(byte_in_class(ByteClass::Digit, b'0'));
    assert!(byte_in_class(ByteClass::Digit, b'9'));
    assert!(!byte_in_class(ByteClass::Digit, b'/'));
    assert!(!byte_in_class(ByteClass::Digit, b':'));
    assert!(byte_in_class(ByteClass::LineText, b' '));
    assert!(!byte_in_class(ByteClass::LineText, b'\n'));
}

#[test]
fn words_are_found_at_their_place() {
    let text = b"NAME : x";
    assert!(word_at(text, 0, b"NAME"));
    assert!(word_at(text, 0, b""));
    assert!(word_at(text, 5, b": x"));
    assert!(!word_at(text, 5, b": xy"));
    assert!(!word_at(text, 1, b"NAME"));
    assert!(word_at(text, 8, b""));
    assert!(!word_at(text, 8, b"x"));
    assert!(bytes_equal(b"abc", b"abc"));
    assert!(!bytes_equal(b"abc", b"abd"));
    assert!(!bytes_equal(b"abc", b"ab"));
    assert!(bytes_equal(b"", b""));
    for text in TEXTS {
        for word in ["", " ", "abc", "123", "line", "\n", "x"] {
            let found: Outcome<&str> = nom::bytes::complete::tag(word)(text);
            assert_eq!(word_at(text.as_bytes(), 0, word.as_bytes()), found.is_ok());
        }
    }
}

#[test]
fn numbers_are_the_numbers_of_nom() {
    let numbers = [
        "0", "7", "+7", "-7", "12.5", "-0.25", ".5", "5.", "38.24", "1e3", "1E3", "2.5e-2",
        "-1.00000e+02", "123456.789012", "0.000001", "1000000000", "+.5e1", "00012", "3.14159265",
        "-999999999.999999",
    ];
    for tail in ["", " ", "\n", "\t9", " next"] {
        for number in numbers {
            let text = format!("{}{}", number, tail);
            let read = read_number(text.as_bytes(), 0).unwrap();
            let theirs: Outcome<f64> = nom::number::complete::double(text.as_str());
            let (rest, value) = theirs.unwrap();
            assert_eq!(&text[read.end..], rest);
            let units = read.units.unwrap();
            let ours = units as f64 / 1_000_000.0;
            assert!((ours - value).abs() < 0.000_001, "{} is read as {}", number, units);
            // what is less than a millionth is cut off, towards zero
            assert!(ours.abs() <= value.abs() + 0.000_000_000_1);
        }
    }
}

#[test]
fn what_nom_reads_as_no_number_is_no_number() {
    for text in ["", "abc", "-", "+", ".", "e5", "- 1", "..5", "+-1", " 1"] {
        let theirs: Outcome<f64> = nom::number::complete::double(text);
        assert!(theirs.is_err());
        assert!(read_number(text.as_bytes(), 0).is_none());
    }
    // a number must be followed by white space here, while nom stops where the number ends
    for text in ["1a", "1.2.3", "12-3", "5,"] {
        let theirs: Outcome<f64> = nom::number::complete::double(text);
        assert!(theirs.is_ok());
        assert!(read_number(text.as_bytes(), 0).is_none());
    }
}

fn key_value_of_nom<'a>(key: &'a str, text: &'a str) -> Option<(&'a str, &'a str)> {
    let read: Outcome<(&str, &str, &str, &str, &str, &str)> = nom::sequence::tuple((
        nom::character::complete::multispace0,
        nom::bytes::complete::tag(key),
        nom::character::complete::space0,
        nom::bytes::complete::tag(":"),
        nom::character::complete::space0,
        nom::character::complete::not_line_ending,
    ))(text);
    match read {
        Ok((rest, (_, _, _, _, _, value))) => Some((rest, value.trim_end_matches(" "))),
        Err(_) => None,
    }
}

#[test]
fn key_lines_are_the_key_lines_of_nom() {
    let texts = [
        "NAME : toy\nTYPE : CVRP\n",
        "\n\n  NAME:toy",
        "NAME \t :\t a name with  spaces   \nnext",
        "NAME : \nTYPE",
        "NAME",
        "NAME x : y",
        "NAMES : y",
        "TYPE : CVRP",
        "  TYPE: a : b : c  ",
        "COMMENT : (Augerat et al, No of trucks: 5, Optimal value: 784)\n",
        "NAME : Zürich–Genève  \nTYPE : x",
        "",
    ];
    for text in texts {
        for key in ["NAME", "TYPE", "COMMENT"] {
            let ours = parse_key_value(text, 0, key);
            let theirs = key_value_of_nom(key, text);
            match (ours, theirs) {
                (Some((value, end)), Some((rest, their_value))) => {
                    assert_eq!(value, their_value);
                    assert_eq!(&text[end..], rest);
                }
                (None, None) => {}
                _ => panic!("{:?} is read differently for {}", text, key),
            }
        }
    }
}
