use masker::graph::{compile, compile_source, NodeKind, SourceError};
use masker::lexer::{lex, LexError, Number, Token};
use masker::parser::{parse, ParseError, SoundSpec};

fn lex_str(s: &str) -> Result<Vec<Token>, LexError> {
    lex(&s.as_bytes().to_vec())
}

#[test]
fn lex_keywords_and_pipe() {
    let toks = lex_str("sin 440 | white").unwrap();
    assert_eq!(
        toks,
        vec![
            Token::Sin,
            Token::Number(Number { mantissa: 440, scale: 0 }),
            Token::Pipe,
            Token::White,
        ]
    );
}

#[test]
fn lex_all_keywords() {
    let toks = lex_str("white brown pink sin 1").unwrap();
    assert_eq!(
        toks,
        vec![
            Token::White,
            Token::Brown,
            Token::Pink,
            Token::Sin,
            Token::Number(Number { mantissa: 1, scale: 0 }),
        ]
    );
}

#[test]
fn lex_decimal_number() {
    let toks = lex_str("sin 2.5").unwrap();
    assert_eq!(
        toks,
        vec![Token::Sin, Token::Number(Number { mantissa: 25, scale: 1 })]
    );
}

#[test]
fn lex_unknown_word_fails_at_word_start() {
    let err = lex_str("white glue").unwrap_err();
    assert_eq!(err, LexError::BadChar { pos: 6, byte: b'g' });
}

#[test]
fn lex_bad_byte_fails_with_position() {
    let err = lex_str("sin 440 ?").unwrap_err();
    assert_eq!(err, LexError::BadChar { pos: 8, byte: b'?' });
}

#[test]
fn lex_dot_without_digit_is_bad_char() {
    let err = lex_str("1. ").unwrap_err();
    assert_eq!(err, LexError::BadChar { pos: 1, byte: b'.' });
}

#[test]
fn lex_number_overflow() {
    let err = lex_str("99999999999999999999").unwrap_err();
    assert_eq!(err, LexError::NumberTooLarge { pos: 0 });
}

#[test]
fn lex_number_at_word_limit() {
    // u64::MAX itself still lexes
    let toks = lex_str("18446744073709551615").unwrap();
    assert_eq!(
        toks,
        vec![Token::Number(Number { mantissa: u64::MAX, scale: 0 })]
    );
}

#[test]
fn parse_sine_then_white() {
    let toks = lex_str("sin 440 | white").unwrap();
    let p = parse(&toks).unwrap();
    assert_eq!(
        p,
        vec![
            vec![SoundSpec::Sine { frequency: Number { mantissa: 440, scale: 0 } }],
            vec![SoundSpec::White],
        ]
    );
}

#[test]
fn parse_sin_without_number_is_missing_argument() {
    let toks = lex_str("sin").unwrap();
    assert_eq!(parse(&toks).unwrap_err(), ParseError::MissingArgument);
}

#[test]
fn parse_sin_followed_by_keyword_is_missing_argument() {
    let toks = lex_str("sin white").unwrap();
    assert_eq!(parse(&toks).unwrap_err(), ParseError::MissingArgument);
}

#[test]
fn parse_bare_number_is_unexpected_token() {
    let toks = lex_str("100").unwrap();
    assert_eq!(parse(&toks).unwrap_err(), ParseError::UnexpectedToken);
}

#[test]
fn parse_empty_input_is_one_empty_stage() {
    let toks = lex_str("").unwrap();
    let p = parse(&toks).unwrap();
    assert_eq!(p, vec![Vec::<SoundSpec>::new()]);
}

#[test]
fn parse_trailing_pipe_leaves_empty_final_stage() {
    let toks = lex_str("white |").unwrap();
    let p = parse(&toks).unwrap();
    assert_eq!(p, vec![vec![SoundSpec::White], vec![]]);
}

#[test]
fn parse_mixed_stage() {
    let toks = lex_str("sin 100 white | brown pink").unwrap();
    let p = parse(&toks).unwrap();
    assert_eq!(
        p,
        vec![
            vec![
                SoundSpec::Sine { frequency: Number { mantissa: 100, scale: 0 } },
                SoundSpec::White,
            ],
            vec![SoundSpec::Brown, SoundSpec::Pink],
        ]
    );
}

#[test]
fn compile_keeps_stages_and_nodes() {
    let toks = lex_str("sin 440 white | pink").unwrap();
    let p = parse(&toks).unwrap();
    let g = compile(&p);
    assert_eq!(
        g.stages,
        vec![
            vec![
                NodeKind::Sine { frequency: Number { mantissa: 440, scale: 0 } },
                NodeKind::White,
            ],
            vec![NodeKind::Pink],
        ]
    );
}

#[test]
fn compile_empty_stage_becomes_silence() {
    let toks = lex_str("white |").unwrap();
    let p = parse(&toks).unwrap();
    let g = compile(&p);
    assert_eq!(
        g.stages,
        vec![vec![NodeKind::White], vec![NodeKind::Silence]]
    );
}

#[test]
fn compile_source_end_to_end() {
    let g = compile_source(&b"sin 440 | white".to_vec()).unwrap();
    assert_eq!(
        g.stages,
        vec![
            vec![NodeKind::Sine { frequency: Number { mantissa: 440, scale: 0 } }],
            vec![NodeKind::White],
        ]
    );
}

#[test]
fn compile_source_reports_lex_and_parse_errors() {
    assert_eq!(
        compile_source(&b"si n".to_vec()).unwrap_err(),
        SourceError::Lex(LexError::BadChar { pos: 0, byte: b's' })
    );
    assert_eq!(
        compile_source(&b"440".to_vec()).unwrap_err(),
        SourceError::Parse(ParseError::UnexpectedToken)
    );
}
