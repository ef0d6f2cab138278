use textparse::token::engine::{
    should_pop, CreateTokenProcessor, Incoming, ProcessTokenIterator, Signal,
};
use textparse::token::example::Orderings;
use textparse::token::{Associativity, StackEntry};
use textparse::token::example::{Operator, RawSymbol, RawToken, Term, Token, TokenTree};
use textparse::token::span::{Span, Spanned};

fn drain(mut engine: ProcessTokenIterator<RawToken, TokenTree, ()>) -> Vec<Token> {
    let mut processed = Vec::new();
    while let Some(item) = engine.next() {
        processed.push(item.unwrap().inner);
    }
    processed
}

#[test]
fn example_simple_test() {
    // let my_var = 42;
    let tokens = vec![
        RawToken::Let,
        RawToken::Ident("my_var".to_string()),
        RawToken::Symbol(RawSymbol::Assign),
        RawToken::Value(42),
        RawToken::Symbol(RawSymbol::Semicolon),
    ];

    let processed = drain(CreateTokenProcessor::<RawToken, TokenTree, ()>::new(tokens));

    assert_eq!(
        processed,
        [
            Token::Term(Term::Ident("my_var".to_string())),
            Token::Operator(Operator::Let),
            Token::Term(Term::Value(42)),
            Token::Operator(Operator::Assign),
            Token::Operator(Operator::Semicolon),
        ]
    );
}

#[test]
fn complext_test() {
    // let my_var = [ 13, 24, 35 ];
    let tokens = vec![
        RawToken::Let,
        RawToken::Ident("my_var".to_string()),
        RawToken::Symbol(RawSymbol::Assign),
        RawToken::Symbol(RawSymbol::List),
        RawToken::Value(13),
        RawToken::Symbol(RawSymbol::Comma),
        RawToken::Value(24),
        RawToken::Symbol(RawSymbol::Comma),
        RawToken::Value(35),
        RawToken::Symbol(RawSymbol::ListEnd),
        RawToken::Symbol(RawSymbol::Semicolon),
    ];

    let processed = drain(CreateTokenProcessor::<RawToken, TokenTree, ()>::new(tokens));

    assert_eq!(
        processed,
        [
            Token::Term(Term::Ident("my_var".to_string())),
            Token::Operator(Operator::Let),
            Token::Term(Term::Value(13)),
            Token::Term(Term::Value(24)),
            Token::Operator(Operator::Comma),
            Token::Term(Term::Value(35)),
            Token::Operator(Operator::Comma),
            Token::Operator(Operator::List),
            Token::Operator(Operator::Assign),
            Token::Operator(Operator::Semicolon),
        ]
    );
}

#[test]
fn nested_list() {
    // let my_var = [ [1, 2], [3], 4, [ [5], 6] ];
    let tokens = vec![
        RawToken::Let,
        RawToken::Ident("my_var".to_string()),
        RawToken::Symbol(RawSymbol::Assign),
        RawToken::Symbol(RawSymbol::List),
        RawToken::Symbol(RawSymbol::List),
        RawToken::Value(1),
        RawToken::Symbol(RawSymbol::Comma),
        RawToken::Value(2),
        RawToken::Symbol(RawSymbol::ListEnd),
        RawToken::Symbol(RawSymbol::Comma),
        RawToken::Symbol(RawSymbol::List),
        RawToken::Value(3),
        RawToken::Symbol(RawSymbol::ListEnd),
        RawToken::Symbol(RawSymbol::Comma),
        RawToken::Value(4),
        RawToken::Symbol(RawSymbol::Comma),
        RawToken::Symbol(RawSymbol::List),
        RawToken::Symbol(RawSymbol::List),
        RawToken::Value(5),
        RawToken::Symbol(RawSymbol::ListEnd),
        RawToken::Symbol(RawSymbol::Comma),
        RawToken::Value(6),
        RawToken::Symbol(RawSymbol::ListEnd),
        RawToken::Symbol(RawSymbol::ListEnd),
        RawToken::Symbol(RawSymbol::Semicolon),
    ];

    let processed = drain(CreateTokenProcessor::<RawToken, TokenTree, ()>::new(tokens));

    assert_eq!(
        processed,
        [
            Token::Term(Term::Ident("my_var".to_string())),
            Token::Operator(Operator::Let),
            Token::Term(Term::Value(1)),
            Token::Term(Term::Value(2)),
            Token::Operator(Operator::Comma),
            Token::Operator(Operator::List),
            Token::Term(Term::Value(3)),
            Token::Operator(Operator::List),
            Token::Operator(Operator::Comma),
            Token::Term(Term::Value(4)),
            Token::Operator(Operator::Comma),
            Token::Term(Term::Value(5)),
            Token::Operator(Operator::List),
            Token::Term(Term::Value(6)),
            Token::Operator(Operator::Comma),
            Token::Operator(Operator::List),
            Token::Operator(Operator::Comma),
            Token::Operator(Operator::List),
            Token::Operator(Operator::Assign),
            Token::Operator(Operator::Semicolon),
        ]
    );
}

#[test]
fn empty_input_yields_nothing() {
    let mut engine = CreateTokenProcessor::<RawToken, TokenTree, ()>::new(Vec::new());
    assert!(engine.next().is_none());
    assert!(engine.next().is_none());
}

#[test]
fn values_pass_straight_through() {
    let tokens = vec![RawToken::Value(1), RawToken::Value(2), RawToken::Value(3)];
    let processed = drain(CreateTokenProcessor::<RawToken, TokenTree, ()>::new(tokens));
    assert_eq!(
        processed,
        [
            Token::Term(Term::Value(1)),
            Token::Term(Term::Value(2)),
            Token::Term(Term::Value(3)),
        ]
    );
}

#[test]
fn closer_without_opener_is_an_error_and_ends_the_run() {
    let tokens = vec![
        RawToken::Value(1),
        RawToken::Symbol(RawSymbol::ListEnd),
        RawToken::Value(2),
    ];
    let mut engine = CreateTokenProcessor::<RawToken, TokenTree, ()>::new(tokens);
    assert_eq!(
        engine.next(),
        Some(Ok(Spanned::default_span(Token::Term(Term::Value(1)))))
    );
    assert_eq!(engine.next(), Some(Err(Spanned::default_span(()))));
    assert_eq!(engine.next(), None);
    assert_eq!(engine.next(), None);
}

#[test]
fn closer_unwinds_operators_above_the_opener() {
    // [ let x ]
    let tokens = vec![
        RawToken::Symbol(RawSymbol::List),
        RawToken::Let,
        RawToken::Ident("x".to_string()),
        RawToken::Symbol(RawSymbol::ListEnd),
    ];
    let processed = drain(CreateTokenProcessor::<RawToken, TokenTree, ()>::new(tokens));
    assert_eq!(
        processed,
        [
            Token::Term(Term::Ident("x".to_string())),
            Token::Operator(Operator::Let),
            Token::Operator(Operator::List),
        ]
    );
}

#[test]
fn left_associative_tie_pops_and_right_associative_tie_pushes() {
    // 1 , 2 , 3 : the first comma leaves before the second is pushed
    let commas = vec![
        RawToken::Value(1),
        RawToken::Symbol(RawSymbol::Comma),
        RawToken::Value(2),
        RawToken::Symbol(RawSymbol::Comma),
        RawToken::Value(3),
    ];
    assert_eq!(
        drain(CreateTokenProcessor::<RawToken, TokenTree, ()>::new(commas)),
        [
            Token::Term(Term::Value(1)),
            Token::Term(Term::Value(2)),
            Token::Operator(Operator::Comma),
            Token::Term(Term::Value(3)),
            Token::Operator(Operator::Comma),
        ]
    );
    // let let x : the first `let` waits below the second
    let lets = vec![RawToken::Let, RawToken::Let, RawToken::Ident("x".to_string())];
    assert_eq!(
        drain(CreateTokenProcessor::<RawToken, TokenTree, ()>::new(lets)),
        [
            Token::Term(Term::Ident("x".to_string())),
            Token::Operator(Operator::Let),
            Token::Operator(Operator::Let),
        ]
    );
}

#[test]
fn unclosed_opener_is_drained_at_the_end() {
    let tokens = vec![
        RawToken::Symbol(RawSymbol::List),
        RawToken::Value(7),
        RawToken::Symbol(RawSymbol::Comma),
        RawToken::Value(8),
    ];
    assert_eq!(
        drain(CreateTokenProcessor::<RawToken, TokenTree, ()>::new(tokens)),
        [
            Token::Term(Term::Value(7)),
            Token::Term(Term::Value(8)),
            Token::Operator(Operator::Comma),
            Token::Operator(Operator::List),
        ]
    );
}

#[test]
fn output_count_equals_resolved_entries() {
    // let my_var = [ 13, 24 ]; has nine resolved entries and one closer
    let tokens = vec![
        RawToken::Let,
        RawToken::Ident("my_var".to_string()),
        RawToken::Symbol(RawSymbol::Assign),
        RawToken::Symbol(RawSymbol::List),
        RawToken::Value(13),
        RawToken::Symbol(RawSymbol::Comma),
        RawToken::Value(24),
        RawToken::Symbol(RawSymbol::ListEnd),
        RawToken::Symbol(RawSymbol::Semicolon),
    ];
    let resolved = tokens
        .iter()
        .filter(|t| !matches!(t, RawToken::Symbol(RawSymbol::ListEnd)))
        .count();
    let processed = drain(CreateTokenProcessor::<RawToken, TokenTree, ()>::new(tokens));
    assert_eq!(resolved, 8);
    assert_eq!(processed.len(), resolved);
}

#[test]
fn span_constructors() {
    let a = Span::new(1, 4);
    let b = Span::new(6, 9);
    assert_eq!(a.from_self_to_other(b), Span::new(1, 9));
    assert_eq!(b.from_self_to_other(a), Span::new(6, 4));
    assert_eq!(Span::default(), Span::new(0, 0));
    let spanned = a.over(5u8);
    assert_eq!(spanned, Spanned::new(5u8, Span::new(1, 4)));
    assert_eq!(spanned.inner, 5);
    assert_eq!(spanned.span, a);
    assert_eq!(Spanned::default_span('x'), Spanned::new('x', Span::new(0, 0)));
}

#[test]
fn collect_hands_out_what_is_left() {
    let tokens = vec![
        RawToken::Let,
        RawToken::Ident("x".to_string()),
        RawToken::Symbol(RawSymbol::Assign),
        RawToken::Value(1),
        RawToken::Symbol(RawSymbol::ListEnd),
        RawToken::Value(2),
    ];
    let mut engine = CreateTokenProcessor::<RawToken, TokenTree, ()>::new(tokens);
    assert_eq!(
        engine.next(),
        Some(Ok(Spanned::default_span(Token::Term(Term::Ident("x".to_string())))))
    );
    let rest = engine.collect();
    // the closer unwinds `=`, then finds nothing to close: the run ends there
    assert_eq!(
        rest,
        [
            Ok(Spanned::default_span(Token::Operator(Operator::Let))),
            Ok(Spanned::default_span(Token::Term(Term::Value(1)))),
            Ok(Spanned::default_span(Token::Operator(Operator::Assign))),
            Err(Spanned::default_span(())),
        ]
    );
    assert!(engine.collect().is_empty());
    assert!(engine.next().is_none());
}

#[test]
fn no_resolved_token_is_lost() {
    // [ 1 , [ 2 , 3 ] , let x = 4 ; ] ;
    let tokens = vec![
        RawToken::Symbol(RawSymbol::List),
        RawToken::Value(1),
        RawToken::Symbol(RawSymbol::Comma),
        RawToken::Symbol(RawSymbol::List),
        RawToken::Value(2),
        RawToken::Symbol(RawSymbol::Comma),
        RawToken::Value(3),
        RawToken::Symbol(RawSymbol::ListEnd),
        RawToken::Symbol(RawSymbol::Comma),
        RawToken::Let,
        RawToken::Ident("x".to_string()),
        RawToken::Symbol(RawSymbol::Assign),
        RawToken::Value(4),
        RawToken::Symbol(RawSymbol::Semicolon),
        RawToken::Symbol(RawSymbol::ListEnd),
        RawToken::Symbol(RawSymbol::Semicolon),
    ];
    let count = |wanted: &Token, among: &[Token]| among.iter().filter(|t| *t == wanted).count();
    let mut engine = CreateTokenProcessor::<RawToken, TokenTree, ()>::new(tokens);
    let processed: Vec<Token> = engine.collect().into_iter().map(|t| t.unwrap().inner).collect();
    assert_eq!(processed.len(), 14);
    assert_eq!(count(&Token::Operator(Operator::List), &processed), 2);
    assert_eq!(count(&Token::Operator(Operator::Comma), &processed), 3);
    assert_eq!(count(&Token::Operator(Operator::Semicolon), &processed), 2);
    assert_eq!(count(&Token::Operator(Operator::Let), &processed), 1);
    assert_eq!(count(&Token::Operator(Operator::Assign), &processed), 1);
    for v in 1..5 {
        assert_eq!(count(&Token::Term(Term::Value(v)), &processed), 1);
    }
    assert_eq!(count(&Token::Term(Term::Ident("x".to_string())), &processed), 1);
}

#[test]
fn popping_rule() {
    let entry = |op: Operator| -> StackEntry<Token, Orderings> {
        StackEntry::Resolved(Spanned::default_span(Token::Operator(op)))
    };
    let resolved = |precedence: i8, associativity: Associativity| Incoming::Resolved {
        precedence,
        associativity,
    };
    // the comma on top has precedence 2
    assert!(should_pop(&entry(Operator::Comma), &resolved(1, Associativity::Right)));
    assert!(should_pop(&entry(Operator::Comma), &resolved(2, Associativity::Left)));
    assert!(!should_pop(&entry(Operator::Comma), &resolved(2, Associativity::Right)));
    assert!(!should_pop(&entry(Operator::Comma), &resolved(2, Associativity::ClosedRight)));
    assert!(!should_pop(&entry(Operator::Comma), &resolved(3, Associativity::Left)));
    assert!(should_pop(&entry(Operator::Comma), &Incoming::Right { precedence: 1 }));
    assert!(!should_pop(&entry(Operator::Comma), &Incoming::Right { precedence: 2 }));
    assert!(should_pop(&entry(Operator::Comma), &Incoming::SoftLeft { precedence: 2 }));
    assert!(!should_pop(&entry(Operator::Comma), &Incoming::SoftLeft { precedence: 3 }));
    // an opener is never popped by precedence, nor is an operand or a closer
    assert!(!should_pop(&entry(Operator::List), &resolved(-128, Associativity::Left)));
    assert!(!should_pop(&entry(Operator::List), &Incoming::SoftLeft { precedence: -128 }));
    let operand: StackEntry<Token, Orderings> =
        StackEntry::Resolved(Spanned::default_span(Token::Term(Term::Value(1))));
    assert!(!should_pop(&operand, &Incoming::SoftLeft { precedence: -128 }));
    let closer: StackEntry<Token, Orderings> =
        StackEntry::Order(Spanned::default_span(Orderings::ListEnd));
    assert!(!should_pop(&closer, &Incoming::SoftLeft { precedence: -128 }));
}

#[test]
fn tokens_can_be_supplied_one_by_one() {
    // let my_var = 42; with each raw token handed over only when it is needed
    let mut raw = vec![
        RawToken::Let,
        RawToken::Ident("my_var".to_string()),
        RawToken::Symbol(RawSymbol::Assign),
        RawToken::Value(42),
        RawToken::Symbol(RawSymbol::Semicolon),
    ]
    .into_iter();
    let mut engine = CreateTokenProcessor::<RawToken, TokenTree, ()>::new(Vec::new());
    let mut pulled = 0;
    let mut processed = Vec::new();
    let mut pulled_at_output = Vec::new();
    loop {
        if engine.needs_token() {
            if let Some(token) = raw.next() {
                pulled += 1;
                engine.supply(token);
                assert!(!engine.needs_token());
            }
        }
        match engine.advance() {
            Signal::Continue => {}
            Signal::Yield(item) => {
                processed.push(item.unwrap().inner);
                pulled_at_output.push(pulled);
            }
            Signal::Finished => break,
        }
    }
    assert_eq!(
        processed,
        [
            Token::Term(Term::Ident("my_var".to_string())),
            Token::Operator(Operator::Let),
            Token::Term(Term::Value(42)),
            Token::Operator(Operator::Assign),
            Token::Operator(Operator::Semicolon),
        ]
    );
    // no token is pulled before it is needed
    assert_eq!(pulled_at_output, [2, 3, 4, 5, 5]);
    assert!(matches!(engine.advance(), Signal::Finished));
}

#[test]
fn supplied_tokens_queue_behind_those_given_at_the_start() {
    let mut engine = CreateTokenProcessor::<RawToken, TokenTree, ()>::new(vec![
        RawToken::Value(1),
        RawToken::Symbol(RawSymbol::Comma),
    ]);
    assert!(!engine.needs_token());
    engine.supply(RawToken::Value(2));
    engine.supply(RawToken::Value(3));
    assert_eq!(
        drain(engine),
        [
            Token::Term(Term::Value(1)),
            Token::Term(Term::Value(2)),
            Token::Term(Term::Value(3)),
            Token::Operator(Operator::Comma),
        ]
    );
}

#[test]
fn spanned_default_is_the_default_value_in_the_empty_span() {
    let spanned: Spanned<u32> = Spanned::default();
    assert_eq!(spanned, Spanned::new(0, Span::new(0, 0)));
    assert_eq!(spanned, Spanned::default_span(u32::default()));
    let text: Spanned<String> = Spanned::default();
    assert_eq!(text.inner, "");
    assert_eq!(text.span, Span::default());
}
