use reef::lexer::Lexer;
use reef::text::is_meta;

#[test]
fn peek_and_eof() {
    let lex = Lexer::new("");
    assert!(lex.is_eof());
    assert_eq!(lex.peek(), 0);

    let lex = Lexer::new("a");
    assert!(!lex.is_eof());
    assert_eq!(lex.peek(), b'a');
}

#[test]
fn eat_and_bump() {
    let mut lex = Lexer::new("ab");
    assert!(lex.eat(b'a'));
    assert!(!lex.eat(b'a'));
    assert!(lex.eat(b'b'));
    assert!(lex.is_eof());
}

#[test]
fn eat_str() {
    let mut lex = Lexer::new("then done");
    assert!(lex.eat_str(b"then"));
    assert_eq!(lex.peek(), b' ');
    lex.bump();
    assert!(lex.eat_str(b"done"));
    assert!(lex.is_eof());
}

#[test]
fn skip_blanks_not_newlines() {
    let mut lex = Lexer::new("  \t\nfoo");
    lex.skip_blanks();
    assert_eq!(lex.peek(), b'\n');
}

#[test]
fn read_name() {
    let mut lex = Lexer::new("FOO_bar123 rest");
    assert_eq!(lex.read_name(), "FOO_bar123");
    assert_eq!(lex.peek(), b' ');
}

#[test]
fn read_name_underscore_start() {
    let mut lex = Lexer::new("_private");
    assert_eq!(lex.read_name(), "_private");
}

#[test]
fn read_name_no_match() {
    let mut lex = Lexer::new("123abc");
    assert_eq!(lex.read_name(), "");
    assert_eq!(lex.pos(), 0);
}

#[test]
fn read_number() {
    let mut lex = Lexer::new("42rest");
    assert_eq!(lex.read_number(), "42");
}

#[test]
fn scan_squote() {
    let mut lex = Lexer::new("hello world'rest");
    let content = lex.scan_squote().unwrap();
    assert_eq!(content, "hello world");
    assert_eq!(lex.peek(), b'r');
}

#[test]
fn at_keyword() {
    let lex = Lexer::new("then ");
    assert!(lex.at_keyword(b"then"));
    assert!(!lex.at_keyword(b"the"));
}

#[test]
fn at_keyword_eof() {
    let lex = Lexer::new("fi");
    assert!(lex.at_keyword(b"fi"));
}

#[test]
fn at_keyword_no_boundary() {
    let lex = Lexer::new("done_stuff");
    assert!(!lex.at_keyword(b"done"));
}

#[test]
fn skip_comment() {
    let mut lex = Lexer::new("# this is a comment\nnext");
    lex.skip_comment();
    assert_eq!(lex.peek(), b'\n');
}

// ----- more of the same kind -----

#[test]
fn peek_at_offsets() {
    let lex = Lexer::new("abc");
    assert_eq!(lex.peek_at(0), b'a');
    assert_eq!(lex.peek_at(2), b'c');
    assert_eq!(lex.peek_at(3), 0);
    assert_eq!(lex.peek_at(usize::MAX), 0);
}

#[test]
fn bump_n_and_set_pos() {
    let mut lex = Lexer::new("hello world");
    lex.bump_n(6);
    assert_eq!(lex.pos(), 6);
    assert_eq!(lex.remaining(), "world");
    lex.set_pos(1);
    assert_eq!(lex.peek(), b'e');
    lex.set_pos(11);
    assert!(lex.is_eof());
    assert_eq!(lex.remaining(), "");
}

#[test]
fn slices_reproduce_the_source() {
    let mut lex = Lexer::new("name=héllo rest");
    let name = lex.read_name();
    assert_eq!(name, "name");
    assert_eq!(lex.slice(0), "name");
    assert!(lex.eat(b'='));
    let start = lex.pos();
    lex.bump_n(6);
    assert_eq!(lex.slice(start), "héllo");
    assert_eq!(lex.slice_range(0, 4), "name");
    assert_eq!(lex.slice_range(5, 11), "héllo");
    assert_eq!(lex.slice_range(3, 3), "");
    assert_eq!(lex.remaining(), " rest");
}

#[test]
fn eat_does_not_move_on_mismatch() {
    let mut lex = Lexer::new("abc");
    assert!(!lex.eat(b'x'));
    assert_eq!(lex.pos(), 0);
    assert!(!lex.eat_str(b"abd"));
    assert!(!lex.eat_str(b"abcd"));
    assert_eq!(lex.pos(), 0);
    assert!(lex.eat_str(b""));
    assert!(lex.eat_str(b"abc"));
    assert_eq!(lex.pos(), 3);
    assert!(!lex.eat(b'a'));
}

#[test]
fn read_number_no_match() {
    let mut lex = Lexer::new("abc");
    assert_eq!(lex.read_number(), "");
    assert_eq!(lex.pos(), 0);
    let mut lex = Lexer::new("007");
    assert_eq!(lex.read_number(), "007");
    assert!(lex.is_eof());
}

#[test]
fn scan_squote_unterminated() {
    let mut lex = Lexer::new("no end");
    let e = lex.scan_squote().unwrap_err();
    assert_eq!(e.pos, 6);
    assert_eq!(e.msg, "unterminated single quote");
    assert_eq!(e.describe(), "parse error at byte 6: unterminated single quote");
    let mut lex = Lexer::new("'");
    assert_eq!(lex.scan_squote().unwrap(), "");
    assert!(lex.is_eof());
    let mut lex = Lexer::new("a\\'b");
    assert_eq!(lex.scan_squote().unwrap(), "a\\");
}

#[test]
fn skip_comment_only_at_hash() {
    let mut lex = Lexer::new("a # b");
    lex.skip_comment();
    assert_eq!(lex.pos(), 0);
    let mut lex = Lexer::new("# to the end");
    lex.skip_comment();
    assert!(lex.is_eof());
}

#[test]
fn skip_blanks_at_end() {
    let mut lex = Lexer::new("x \t ");
    lex.skip_blanks();
    assert_eq!(lex.pos(), 0);
    lex.bump();
    lex.skip_blanks();
    assert!(lex.is_eof());
    lex.skip_blanks();
    assert!(lex.is_eof());
}

#[test]
fn keywords_and_metacharacters() {
    let lex = Lexer::new("done;x");
    assert!(lex.at_keyword(b"done"));
    let lex = Lexer::new("(x");
    assert!(lex.at_keyword(b"("));
    let lex = Lexer::new("{x");
    assert!(!lex.at_keyword(b"{"));
    let lex = Lexer::new("{ x");
    assert!(lex.at_keyword(b"{"));
    let lex = Lexer::new("fi");
    assert!(lex.at_any_keyword(&[b"done", b"fi"]));
    assert!(!lex.at_any_keyword(&[b"done", b"esac"]));
    assert!(!lex.at_any_keyword(&[]));
    for b in [b' ', b'\t', b'\n', b';', b'&', b'|', b'(', b')', b'<', b'>', 0u8] {
        assert!(is_meta(b));
    }
    assert!(!is_meta(b'a'));
    assert!(!is_meta(b'#'));
    assert!(!is_meta(b'{'));
}

#[test]
fn errors_carry_the_cursor() {
    let mut lex = Lexer::new("abc");
    lex.bump();
    let e = lex.err("boom");
    assert_eq!((e.pos, e.msg), (1, "boom"));
    assert_eq!(e.describe(), "parse error at byte 1: boom");
}

#[test]
fn eat_takes_no_sentinel_at_the_end() {
    let mut lex = Lexer::new("");
    assert!(!lex.eat(0));
    assert_eq!(lex.pos(), 0);
    let mut lex = Lexer::new("a");
    assert!(lex.eat(b'a'));
    assert!(!lex.eat(0));
    assert_eq!(lex.pos(), 1);
    assert!(lex.is_eof());
    assert!(!lex.eat_str(&[0]));
    let mut lex = Lexer::new("\0");
    assert!(lex.eat(0));
    assert_eq!(lex.pos(), 1);
    assert!(!lex.eat(0));
    lex.set_pos(7);
    assert!(!lex.eat(0));
    assert_eq!(lex.pos(), 7);
}
