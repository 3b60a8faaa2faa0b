use zonefile::{Lexer, Token};

#[test]
fn push_to_str() {
    let mut chars: Option<Vec<u8>> = Some("test".into());

    Lexer::push_to_str(&mut chars, 'i');
    Lexer::push_to_str(&mut chars, 'n');
    Lexer::push_to_str(&mut chars, 'g');
    assert_eq!(chars.unwrap(), "testing".as_bytes());
}

#[test]
fn comment_only() {
    let zonefile = "; this is a comment\n";
    let mut lexer = Lexer::new(zonefile);
    assert_eq!(lexer.next_token(), Ok(Some(Token::Comment)));
    assert_eq!(
        lexer.next_token(),
        Ok(Some(Token::Text(" this is a comment".into())))
    );
    assert_eq!(lexer.next_token(), Ok(Some(Token::EOF)));
}

#[test]
fn multiple_comment() {
    let zonefile = "; this is a comment\n; this is another comment";
    let mut lexer = Lexer::new(zonefile);
    assert_eq!(lexer.next_token(), Ok(Some(Token::Comment)));
    assert_eq!(
        lexer.next_token(),
        Ok(Some(Token::Text(" this is a comment".into())))
    );
    assert_eq!(lexer.next_token(), Ok(Some(Token::Comment)));
    assert_eq!(
        lexer.next_token(),
        Ok(Some(Token::Text(" this is another comment".into())))
    );
}

#[test]
fn whitespace() {
    let zonefile = "\r\n\r\n";
    let mut lexer = Lexer::new(zonefile);
    assert_eq!(lexer.next_token(), Ok(Some(Token::EOF)));
}

#[test]
fn origin_only() {
    let zonefile = "$ORIGIN cidr.network.";
    let mut lexer = Lexer::new(zonefile);
    assert_eq!(
        lexer.next_token(),
        Ok(Some(Token::Origin { domain_name: "cidr.network.".into(), lineno: 0 }))
    );
}

#[test]
fn origin_with_comment() {
    let zonefile = "$ORIGIN cidr.network. ; this is a comment";
    let mut lexer = Lexer::new(zonefile);
    assert_eq!(
        lexer.next_token(),
        Ok(Some(Token::Origin { domain_name: "cidr.network.".into(), lineno: 0 }))
    );
    assert_eq!(lexer.next_token(), Ok(Some(Token::Comment)));
}
