use dust::lex::{
    longer_than, parse_block_comment, parse_ddquote_raw_seg, parse_dquot_raw_seg, parse_http_uri,
    parse_ident_or_keyword, parse_line_comment1, parse_line_comment2, parse_natural,
    parse_punctuation, parse_rel_uri, parse_sha256, parse_verbatim, parse_whitespace, range_parse,
    scan_parse, span_shift, split_front, starts_with, Lex, Range, Scan,
};
use dust::text::split_chars;
use dust::token::{Token, TokenKind};

#[test]
fn token_knows_its_kind_and_text() {
    let t = Token::of(TokenKind::Arrow, "->");
    assert_eq!(t, Token::Arrow("->"));
    assert_eq!(t.kind(), TokenKind::Arrow);
    assert_eq!(t.as_str(), "->");
    assert!(Token::Ident("let").is_ident("let"));
    assert!(!Token::Ident("let").is_ident("in"));
    assert!(!Token::Let("let").is_ident("let"));
}

#[test]
fn split_chars_counts_characters_not_bytes() {
    assert_eq!(split_chars("λx→y", 0), ("", "λx→y"));
    assert_eq!(split_chars("λx→y", 1), ("λ", "x→y"));
    assert_eq!(split_chars("λx→y", 3), ("λx→", "y"));
    assert_eq!(split_chars("λx→y", 4), ("λx→y", ""));
}

#[test]
fn starts_with_and_split_front() {
    assert!(starts_with("→ x", "→"));
    assert!(starts_with("abc", ""));
    assert!(starts_with("abc", "abc"));
    assert!(!starts_with("ab", "abc"));
    assert!(!starts_with("abd", "abc"));
    assert_eq!(split_front("→ x", "→"), ("→", " x"));
    assert_eq!(split_front("abc", ""), ("", "abc"));
}

#[test]
fn white_space_runs_to_the_first_other_character() {
    assert_eq!(parse_whitespace("  \n\t x y"), Some(Token::Whitespace("  \n\t ")));
    assert_eq!(parse_whitespace("x "), None);
    assert_eq!(parse_whitespace(""), None);
    assert_eq!(parse_whitespace("\u{a0}x"), Some(Token::Whitespace("\u{a0}")));
}

#[test]
fn natural_is_a_run_of_digits() {
    assert_eq!(parse_natural("123abc"), Some(Token::Natural("123")));
    assert_eq!(parse_natural("0"), Some(Token::Natural("0")));
    assert_eq!(parse_natural("a1"), None);
    assert_eq!(parse_natural("٣"), None);
}

#[test]
fn relative_uri_begins_with_a_dot() {
    assert_eq!(parse_rel_uri("./a/b.dhall) x"), Some(Token::RelUri("./a/b.dhall")));
    assert_eq!(parse_rel_uri("../x y"), Some(Token::RelUri("../x")));
    assert_eq!(parse_rel_uri("./a,b"), Some(Token::RelUri("./a")));
    assert_eq!(parse_rel_uri("./"), Some(Token::RelUri("./")));
    assert_eq!(parse_rel_uri(".x"), None);
    assert_eq!(parse_rel_uri("a/b"), None);
}

#[test]
fn http_uri_begins_with_its_scheme() {
    assert_eq!(parse_http_uri("https://a.b/c d"), Some(Token::HttpUri("https://a.b/c")));
    assert_eq!(parse_http_uri("http://x)"), Some(Token::HttpUri("http://x")));
    assert_eq!(parse_http_uri("http://"), Some(Token::HttpUri("http://")));
    assert_eq!(parse_http_uri("http:/"), None);
    assert_eq!(parse_http_uri("ftp://x"), None);
}

#[test]
fn sha256_takes_sixty_four_bytes_after_the_colon() {
    let hex = "0123456789abcdef0123456789abcdef0123456789abcdef0123456789abcdef";
    let text = format!("sha256:{} rest", hex);
    let expected = format!("sha256:{}", hex);
    assert_eq!(parse_sha256(&text), Some(Token::Sha256(&expected)));
    let long = format!("sha256:{}ffff", hex);
    assert_eq!(parse_sha256(&long), Some(Token::Sha256(&expected)));
    let short = format!("sha256:{}", &hex[..62]);
    assert_eq!(parse_sha256(&short), None);
    let just = format!("sha256:{}", &hex[..63]);
    assert_eq!(parse_sha256(&just), Some(Token::Sha256(&just)));
}

#[test]
fn identifiers_and_keywords() {
    assert_eq!(parse_ident_or_keyword("foo-bar/baz qux"), Some(Token::Ident("foo-bar/baz")));
    assert_eq!(parse_ident_or_keyword("_x1 "), Some(Token::Ident("_x1")));
    assert_eq!(parse_ident_or_keyword("été)"), Some(Token::Ident("été")));
    assert_eq!(parse_ident_or_keyword("let x"), Some(Token::Let("let")));
    assert_eq!(parse_ident_or_keyword("in"), Some(Token::In("in")));
    assert_eq!(parse_ident_or_keyword("with "), Some(Token::With("with")));
    assert_eq!(parse_ident_or_keyword("if("), Some(Token::If("if")));
    assert_eq!(parse_ident_or_keyword("then"), Some(Token::Then("then")));
    assert_eq!(parse_ident_or_keyword("else"), Some(Token::Else("else")));
    assert_eq!(parse_ident_or_keyword("letter"), Some(Token::Ident("letter")));
    assert_eq!(parse_ident_or_keyword("`a b` c"), Some(Token::Ident("`a b`")));
    assert_eq!(parse_ident_or_keyword("1x"), Some(Token::Ident("1x")));
    assert_eq!(parse_ident_or_keyword("!"), None);
    assert_eq!(parse_ident_or_keyword(""), None);
}

#[test]
fn line_comments_run_to_the_end_of_the_line() {
    assert_eq!(parse_line_comment1("-- hi\nx"), Some(Token::Comment("-- hi\n")));
    assert_eq!(parse_line_comment1("--"), Some(Token::Comment("--")));
    assert_eq!(parse_line_comment1("-- to the end"), Some(Token::Comment("-- to the end")));
    assert_eq!(parse_line_comment1("- x"), None);
    assert_eq!(parse_line_comment1("x"), None);
    assert_eq!(parse_line_comment2("#! x\ny"), Some(Token::Comment("#! x\n")));
    assert_eq!(parse_line_comment2("# x"), None);
}

#[test]
fn block_comment_runs_to_its_closing_mark() {
    assert_eq!(parse_block_comment("{- a -} b"), Some(Token::Comment("{- a -}")));
    assert_eq!(parse_block_comment("{{- a → -}}"), Some(Token::Comment("{{- a → -}")));
    assert_eq!(parse_block_comment("{- open"), Some(Token::Comment("{- open")));
    assert_eq!(parse_block_comment("{-}"), None);
    assert_eq!(parse_block_comment("{x"), None);
    assert_eq!(parse_block_comment("x"), None);
}

#[test]
fn text_of_a_quoted_string() {
    assert_eq!(parse_dquot_raw_seg("abc\" rest"), Some(Token::RawText("abc")));
    assert_eq!(parse_dquot_raw_seg("a${x}"), Some(Token::RawText("a")));
    assert_eq!(parse_dquot_raw_seg("a\\\"b\" c"), Some(Token::RawText("a\\\"b")));
    assert_eq!(parse_dquot_raw_seg("\\${x}\""), Some(Token::RawText("\\${x}")));
    assert_eq!(parse_dquot_raw_seg("\""), Some(Token::RawText("")));
    assert_eq!(parse_dquot_raw_seg("${"), Some(Token::RawText("")));
    assert_eq!(parse_dquot_raw_seg("open"), Some(Token::RawText("open")));
}

#[test]
fn text_of_a_double_quoted_string() {
    assert_eq!(parse_ddquote_raw_seg("ab''xy"), Some(Token::RawText("ab")));
    assert_eq!(parse_ddquote_raw_seg("ab${x}"), Some(Token::RawText("ab")));
    assert_eq!(parse_ddquote_raw_seg("a''${b}''zz"), Some(Token::RawText("a''${b}")));
    assert_eq!(parse_ddquote_raw_seg("''xy"), Some(Token::RawText("")));
    assert_eq!(parse_ddquote_raw_seg("ab''"), Some(Token::RawText("ab''")));
}

#[test]
fn punctuation_is_tried_in_order() {
    assert_eq!(parse_punctuation("->x"), Some(Token::Arrow("->")));
    assert_eq!(parse_punctuation("→x"), Some(Token::Arrow("→")));
    assert_eq!(parse_punctuation("//\\\\ x"), Some(Token::Conj1("//\\\\")));
    assert_eq!(parse_punctuation("⩓"), Some(Token::Conj1("⩓")));
    assert_eq!(parse_punctuation("// x"), Some(Token::Alt("//")));
    assert_eq!(parse_punctuation("/\\ x"), Some(Token::Conj2("/\\")));
    assert_eq!(parse_punctuation("/ x"), Some(Token::Div("/")));
    assert_eq!(parse_punctuation("λ(x)"), Some(Token::Lambda("λ")));
    assert_eq!(parse_punctuation("\\(x)"), Some(Token::Lambda("\\")));
    assert_eq!(parse_punctuation("∀(x)"), Some(Token::Forall("∀")));
    assert_eq!(parse_punctuation("${x}"), Some(Token::TextImbue("${")));
    assert_eq!(parse_punctuation("''x"), Some(Token::DDQuote("''")));
    assert_eq!(parse_punctuation("'x"), Some(Token::SQuote("'")));
    assert_eq!(parse_punctuation("\"x"), Some(Token::DQuote("\"")));
    assert_eq!(parse_punctuation("::x"), Some(Token::DColon("::")));
    assert_eq!(parse_punctuation(":x"), Some(Token::Colon(":")));
    assert_eq!(parse_punctuation("++x"), Some(Token::TextConcat("++")));
    assert_eq!(parse_punctuation("+x"), Some(Token::Plus("+")));
    assert_eq!(parse_punctuation("#x"), Some(Token::ListConcat("#")));
    assert_eq!(parse_punctuation("=x"), Some(Token::Equals("=")));
    assert_eq!(parse_punctuation("(x"), Some(Token::LPar("(")));
    assert_eq!(parse_punctuation(")x"), Some(Token::RPar(")")));
    assert_eq!(parse_punctuation("*x"), Some(Token::Star("*")));
    assert_eq!(parse_punctuation("-x"), Some(Token::Minus("-")));
    assert_eq!(parse_punctuation("{x"), Some(Token::LBrace("{")));
    assert_eq!(parse_punctuation("}x"), Some(Token::RBrace("}")));
    assert_eq!(parse_punctuation("[x"), Some(Token::LBracket("[")));
    assert_eq!(parse_punctuation("]x"), Some(Token::RBracket("]")));
    assert_eq!(parse_punctuation("<x"), Some(Token::LAngle("<")));
    assert_eq!(parse_punctuation(">x"), Some(Token::RAngle(">")));
    assert_eq!(parse_punctuation(",x"), Some(Token::Comma(",")));
    assert_eq!(parse_punctuation(".x"), Some(Token::Dot(".")));
    assert_eq!(parse_punctuation("|x"), Some(Token::Pipe("|")));
    assert_eq!(parse_punctuation("?x"), Some(Token::Questionmark("?")));
    assert_eq!(parse_punctuation("x"), None);
    assert_eq!(parse_punctuation(""), None);
}

#[test]
fn verbatim_prefers_the_first_spelling() {
    assert_eq!(parse_verbatim("abc", "ab", "a", TokenKind::Text), Some(Token::Text("ab")));
    assert_eq!(parse_verbatim("acb", "ab", "a", TokenKind::Text), Some(Token::Text("a")));
    assert_eq!(parse_verbatim("xyz", "ab", "", TokenKind::Text), None);
}

#[test]
fn range_and_scan_by_their_sorts() {
    assert_eq!(range_parse("12 ", TokenKind::Integer, Range::Natural), Some(Token::Integer("12")));
    assert_eq!(range_parse("x", TokenKind::Integer, Range::Natural), None);
    assert_eq!(scan_parse("`a`b", TokenKind::Ident, Scan::Quoted), Some(Token::Ident("`a`")));
    assert_eq!(scan_parse("", TokenKind::Comment, Scan::LineComment1), Some(Token::Comment("")));
}

#[test]
fn longer_than_counts_bytes() {
    assert_eq!(longer_than(Some(Token::Ident("ab")), 2), Some(Token::Ident("ab")));
    assert_eq!(longer_than(Some(Token::Ident("a")), 2), None);
    assert_eq!(longer_than(Some(Token::Ident("λ")), 2), Some(Token::Ident("λ")));
    assert_eq!(longer_than(None, 0), None);
}

#[test]
fn span_shift_moves_both_ends() {
    let base = (3, Token::Empty(""), 10);
    let mut span = (0, Token::Ident("ab"), 2);
    span_shift(&base, &mut span);
    assert_eq!(span, (10, Token::Ident("ab"), 12));
}

fn tokens(source: &str) -> Vec<(usize, Token<'_>, usize)> {
    let mut lex = Lex::new(source);
    let mut out = Vec::new();
    while let Some(item) = lex.next_token() {
        out.push(item);
        assert!(out.len() <= source.len() + 8);
    }
    out
}

#[test]
fn lexer_skips_white_space_and_comments_and_counts_bytes() {
    let got = tokens("let x = -- c\n  λ(y) → {- z -} y");
    let expected = vec![
        (0, Token::Let("let"), 3),
        (4, Token::Ident("x"), 5),
        (6, Token::Equals("="), 7),
        (15, Token::Lambda("λ"), 17),
        (17, Token::LPar("("), 18),
        (18, Token::Ident("y"), 19),
        (19, Token::RPar(")"), 20),
        (21, Token::Arrow("→"), 24),
        (33, Token::Ident("y"), 34),
    ];
    assert_eq!(got, expected);
}

#[test]
fn lexer_reads_strings_with_interpolation() {
    let got = tokens("let x = \"a${y}b\" in x");
    let expected = vec![
        (0, Token::Let("let"), 3),
        (4, Token::Ident("x"), 5),
        (6, Token::Equals("="), 7),
        (8, Token::DQuote("\""), 9),
        (9, Token::RawText("a"), 10),
        (10, Token::TextImbue("${"), 12),
        (12, Token::Ident("y"), 13),
        (13, Token::RBrace("}"), 14),
        (14, Token::RawText("b"), 15),
        (15, Token::DQuote("\""), 16),
        (17, Token::In("in"), 19),
        (20, Token::Ident("x"), 21),
    ];
    assert_eq!(got, expected);
}

#[test]
fn lexer_reads_double_quoted_strings_with_nested_strings() {
    let got = tokens("''a${ \"b\" }c''\n1");
    let expected = vec![
        (0, Token::DDQuote("''"), 2),
        (2, Token::RawText("a"), 3),
        (3, Token::TextImbue("${"), 5),
        (6, Token::DQuote("\""), 7),
        (7, Token::RawText("b"), 8),
        (8, Token::DQuote("\""), 9),
        (10, Token::RBrace("}"), 11),
        (11, Token::RawText("c"), 12),
        (12, Token::DDQuote("''"), 14),
        (15, Token::Natural("1"), 16),
    ];
    assert_eq!(got, expected);
}

#[test]
fn lexer_stops_where_nothing_is_left() {
    let mut lex = Lex::new("a  ");
    assert_eq!(lex.src(), "a  ");
    assert_eq!(lex.next_expr(), Some(Token::Ident("a")));
    assert_eq!(lex.src(), "a  ");
    assert_eq!(lex.next_moody(), Some(Token::Ident("a")));
    assert_eq!(lex.next_token(), Some((0, Token::Ident("a"), 1)));
    assert_eq!(lex.src(), "  ");
    assert_eq!(lex.next_token(), None);
    assert_eq!(lex.src(), "");
    assert_eq!(lex.position(), 3);
    assert_eq!(lex.next_token(), None);
}
