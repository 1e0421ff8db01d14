use lexer::lexer::accessors_idempotent;
use lexer::lexer::tokenize;
use lexer::LexError;
use lexer::Lexer;
use lexer::Token;

#[test]
fn spans_partition_the_line() {
    // The spans yielded for a whole line are adjacent, start at 0 and
    // end at the line's length: their lengths sum to the length.
    for line in ["1 + 2 = 3", "128u128+0x1A_2b", "", " ", "0x1f", "1_000 = 0x3e8"] {
        let spans = tokenize(line).unwrap();
        assert!(!spans.is_empty());
        assert_eq!(spans[0].1, 0);
        let last = spans[spans.len() - 1];
        assert_eq!(last.0, Token::EOF);
        assert_eq!(last.1, line.len());
        assert_eq!(last.2, line.len());
        let mut sum = 0;
        let mut prior_end = 0;
        for (_, start, end) in spans.iter() {
            assert_eq!(*start, prior_end);
            assert!(start <= end);
            sum += end - start;
            prior_end = *end;
        }
        assert_eq!(sum, line.len());
    }
}

#[test]
fn tokenize_matches_the_stepwise_scan() {
    let line = "1 + 2 = 3";
    let spans = tokenize(line).unwrap();
    let mut lx = Lexer::new(line);
    for (kind, start, end) in spans.iter() {
        assert!(lx.advance().is_ok());
        assert_eq!(lx.peek(), *kind);
        assert_eq!(lx.start_loc(), *start);
        assert_eq!(lx.content(), &line[*start..*end]);
    }
    assert_eq!(spans.len(), 10);
}

#[test]
fn tokenize_fails_on_an_invalid_character() {
    assert_eq!(tokenize("1#"), Err(LexError::InvalidCharacter('#')));
    assert_eq!(tokenize("0xg"), Err(LexError::InvalidCharacter('x')));
    assert_eq!(tokenize("a"), Err(LexError::InvalidCharacter('a')));
}

#[test]
fn accessors_return_the_same_value_twice() {
    let mut lx = Lexer::new("0x1A_2b u8");
    assert!(accessors_idempotent(&lx));
    while lx.advance().is_ok() {
        assert!(accessors_idempotent(&lx));
        assert_eq!(lx.peek(), lx.peek());
        assert_eq!(lx.start_loc(), lx.start_loc());
        assert_eq!(lx.previous_end_loc(), lx.previous_end_loc());
        assert_eq!(lx.content(), lx.content());
        if lx.peek() == Token::EOF {
            break;
        }
    }
}
