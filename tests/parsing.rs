use braindamage::{AggregateSameProcessor, Instruction, Lexer, Parser, ParserMode, Token};

fn release(src: &str) -> Vec<Instruction<u8>> {
    Parser::new(ParserMode::Release).parse_script(src)
}

fn debug(src: &str) -> Vec<Instruction<u8>> {
    Parser::new(ParserMode::Debug).parse_script(src)
}

#[test]
fn lone_close_bracket_is_reported_and_never_fatal() {
    let dropped = Lexer::new(false).lex::<u8>("]");
    assert!(dropped.tokens.is_empty());
    assert_eq!(dropped.unmatched_close, 1);
    assert_eq!(dropped.unmatched_open, 0);

    let kept = Lexer::new(true).lex::<u8>("]");
    assert_eq!(kept.tokens, vec![Token::Instruction(Instruction::NoOp)]);
    assert_eq!(kept.unmatched_close, 1);

    assert_eq!(release("]"), Vec::<Instruction<u8>>::new());
    assert_eq!(debug("]"), vec![Instruction::NoOp]);
    let parsed = Parser::new(ParserMode::Release).parse::<u8>("]");
    assert_eq!(parsed.unmatched_close, 1);
    assert_eq!(parsed.unmatched_open, 0);
}

#[test]
fn unmatched_open_bracket_is_closed_at_the_end() {
    let parsed = Parser::new(ParserMode::Release).parse::<u8>("+[+");
    assert_eq!(parsed.unmatched_open, 1);
    assert_eq!(parsed.unmatched_close, 0);
    assert_eq!(
        parsed.instructions,
        vec![
            Instruction::IncreaseValue(1),
            Instruction::LoopStart(2),
            Instruction::IncreaseValue(1),
            Instruction::LoopEnd(2),
        ]
    );
}

#[test]
fn lexer_maps_every_operator() {
    let tokens = Lexer::new(false).lex_string::<u16>("><+-,.;:_x");
    assert_eq!(
        tokens,
        vec![
            Token::Instruction(Instruction::IncreaseIndex(1)),
            Token::Instruction(Instruction::DecreaseIndex(1)),
            Token::Instruction(Instruction::IncreaseValue(1)),
            Token::Instruction(Instruction::DecreaseValue(1)),
            Token::Instruction(Instruction::IoRead),
            Token::Instruction(Instruction::IoWrite),
            Token::Instruction(Instruction::FileIoRead),
            Token::Instruction(Instruction::FileIoWrite),
            Token::Instruction(Instruction::NoOp),
        ]
    );
    let with_comments = Lexer::new(true).lex_string::<u16>("a+");
    assert_eq!(
        with_comments,
        vec![Token::Instruction(Instruction::NoOp), Token::Instruction(Instruction::IncreaseValue(1))]
    );
}

#[test]
fn lexer_nests_loop_blocks() {
    let tokens = Lexer::new(false).lex_string::<u8>("+[-[>]]");
    assert_eq!(
        tokens,
        vec![
            Token::Instruction(Instruction::IncreaseValue(1)),
            Token::LoopBlock(vec![
                Token::Instruction(Instruction::DecreaseValue(1)),
                Token::LoopBlock(vec![Token::Instruction(Instruction::IncreaseIndex(1))]),
            ]),
        ]
    );
}

#[test]
fn flatten_resolves_jump_distances() {
    let lexer = Lexer::new(false);
    let flat = lexer.flatten(lexer.lex_string::<u8>("[[]]"));
    assert_eq!(
        flat,
        vec![
            Instruction::LoopStart(3),
            Instruction::LoopStart(1),
            Instruction::LoopEnd(1),
            Instruction::LoopEnd(3),
        ]
    );
}

#[test]
fn release_fuses_runs_inside_loops() {
    assert_eq!(
        release("+++[->+<]"),
        vec![
            Instruction::IncreaseValue(3),
            Instruction::LoopStart(5),
            Instruction::DecreaseValue(1),
            Instruction::IncreaseIndex(1),
            Instruction::IncreaseValue(1),
            Instruction::DecreaseIndex(1),
            Instruction::LoopEnd(5),
        ]
    );
    assert_eq!(release(">>><<+-"), vec![
        Instruction::IncreaseIndex(3),
        Instruction::DecreaseIndex(2),
        Instruction::IncreaseValue(1),
        Instruction::DecreaseValue(1),
    ]);
}

#[test]
fn release_fusion_wraps_value_payloads() {
    let src = "-".repeat(300);
    assert_eq!(release(&src), vec![Instruction::DecreaseValue(44)]);
    let wide: Vec<Instruction<u16>> = Parser::new(ParserMode::Release).parse_script(&src);
    assert_eq!(wide, vec![Instruction::DecreaseValue(300)]);
}

#[test]
fn debug_keeps_comments_and_does_not_fuse() {
    assert_eq!(
        debug("+ +"),
        vec![Instruction::IncreaseValue(1), Instruction::NoOp, Instruction::IncreaseValue(1)]
    );
    assert_eq!(release("+ +"), vec![Instruction::IncreaseValue(2)]);
}

#[test]
fn parsed_brackets_match_at_their_distances() {
    let program = release("++[>+[-]<[>>+<<-]]++[");
    for (i, inst) in program.iter().enumerate() {
        match inst {
            Instruction::LoopStart(d) => {
                assert_eq!(program[i + d], Instruction::LoopEnd(*d));
            }
            Instruction::LoopEnd(d) => {
                assert_eq!(program[i - d], Instruction::LoopStart(*d));
            }
            _ => {}
        }
    }
}

#[test]
fn processor_fuses_inside_a_leading_loop() {
    let tokens = Lexer::new(false).lex_string::<u8>("[++]--");
    let fused = AggregateSameProcessor::create().process(tokens);
    assert_eq!(
        fused,
        vec![
            Token::LoopBlock(vec![Token::Instruction(Instruction::IncreaseValue(2))]),
            Token::Instruction(Instruction::DecreaseValue(2)),
        ]
    );
}

#[test]
fn instruction_join_adds_payloads() {
    let a: Instruction<u8> = Instruction::IncreaseIndex(2);
    assert!(a.can_join(&Instruction::IncreaseIndex(3)));
    assert_eq!(a.join(Instruction::IncreaseIndex(3)), Instruction::IncreaseIndex(5));
    assert!(!a.can_join(&Instruction::DecreaseIndex(1)));
    assert_eq!(a.join(Instruction::DecreaseIndex(1)), Instruction::IncreaseIndex(2));

    let v: Instruction<u8> = Instruction::IncreaseValue(250);
    assert_eq!(v.join(Instruction::IncreaseValue(10)), Instruction::IncreaseValue(4));
    let d: Instruction<u8> = Instruction::DecreaseValue(200);
    assert_eq!(d.join(Instruction::DecreaseValue(100)), Instruction::DecreaseValue(44));
    assert!(!Instruction::<u8>::IoRead.can_join(&Instruction::IoRead));
    assert!(!Instruction::<u8>::NoOp.can_join(&Instruction::NoOp));
}

#[test]
fn instruction_is_loop() {
    assert!(Instruction::<u8>::LoopStart(2).is_loop());
    assert!(Instruction::<u8>::LoopEnd(2).is_loop());
    assert!(!Instruction::<u8>::IoWrite.is_loop());
}

#[test]
fn token_join_and_can_join() {
    let a: Token<u8> = Token::Instruction(Instruction::DecreaseIndex(4));
    let b: Token<u8> = Token::Instruction(Instruction::DecreaseIndex(6));
    assert!(a.can_join(&b));
    assert_eq!(a.join(b), Token::Instruction(Instruction::DecreaseIndex(10)));
    let block: Token<u8> = Token::LoopBlock(Vec::new());
    assert!(!block.can_join(&Token::LoopBlock(Vec::new())));
    let c: Token<u8> = Token::Instruction(Instruction::IncreaseValue(1));
    assert!(!c.can_join(&block));
}

#[test]
fn parser_mode_flags() {
    assert!(ParserMode::Debug.keep_comments());
    assert!(!ParserMode::Debug.aggregate_instructions());
    assert!(!ParserMode::Release.keep_comments());
    assert!(ParserMode::Release.aggregate_instructions());
}

#[test]
fn default_lexer_drops_comments() {
    let tokens = Lexer::default().lex_string::<u8>("a+b");
    assert_eq!(tokens, vec![Token::Instruction(Instruction::IncreaseValue(1))]);
}
