use ffrs::{Token, Tokenizer};

#[test]
fn test_tokenize_simple_command() {
    let mut tokenizer = Tokenizer::new("convert video.mp4 to video.avi");
    let tokens = tokenizer.tokenize();
    assert_eq!(
        tokens,
        vec![
            Token::Word("convert".to_string()),
            Token::Path("video.mp4".to_string()),
            Token::Word("to".to_string()),
            Token::Path("video.avi".to_string()),
        ]
    );
}

#[test]
fn test_tokenize_with_format() {
    let mut tokenizer = Tokenizer::new("convert video to .avi");
    let tokens = tokenizer.tokenize();
    assert_eq!(
        tokens,
        vec![
            Token::Word("convert".to_string()),
            Token::Word("video".to_string()),
            Token::Word("to".to_string()),
            Token::Format(".avi".to_string()),
        ]
    );
}

#[test]
fn test_tokenize_path_with_directories() {
    let mut tokenizer = Tokenizer::new("convert /home/user/video.mp4 to output.avi");
    let tokens = tokenizer.tokenize();
    assert_eq!(
        tokens,
        vec![
            Token::Word("convert".to_string()),
            Token::Path("/home/user/video.mp4".to_string()),
            Token::Word("to".to_string()),
            Token::Path("output.avi".to_string()),
        ]
    );
}

#[test]
fn test_tokenize_empty_input() {
    let mut tokenizer = Tokenizer::new("");
    let tokens = tokenizer.tokenize();
    assert_eq!(tokens, vec![]);
}

#[test]
fn test_tokenize_whitespace_only() {
    let mut tokenizer = Tokenizer::new("   ");
    let tokens = tokenizer.tokenize();
    assert_eq!(tokens, vec![]);
}

#[test]
fn words_and_formats_are_lowercased_paths_are_not() {
    let mut tokenizer = Tokenizer::new("CONVERT Video.MP4 TO .AVI");
    assert_eq!(
        tokenizer.tokenize(),
        vec![
            Token::Word("convert".to_string()),
            Token::Path("Video.MP4".to_string()),
            Token::Word("to".to_string()),
            Token::Format(".avi".to_string()),
        ]
    );
}

#[test]
fn numbers_keep_their_decimal_text() {
    let mut tokenizer = Tokenizer::new("resize to 1280 by 720.5 at 3.");
    let tokens = tokenizer.tokenize();
    assert_eq!(
        tokens,
        vec![
            Token::Word("resize".to_string()),
            Token::Word("to".to_string()),
            Token::Number("1280".to_string()),
            Token::Word("by".to_string()),
            Token::Number("720.5".to_string()),
            Token::Word("at".to_string()),
            Token::Number("3.".to_string()),
        ]
    );
    // Every number's text is decimal notation that f64's parser accepts
    let values: Vec<f64> = tokens
        .iter()
        .filter_map(|t| match t {
            Token::Number(text) => Some(text.parse::<f64>().unwrap()),
            _ => None,
        })
        .collect();
    assert_eq!(values, vec![1280.0, 720.5, 3.0]);
}

#[test]
fn a_number_takes_one_dot_only() {
    let mut tokenizer = Tokenizer::new("1.2.3");
    assert_eq!(
        tokenizer.tokenize(),
        vec![Token::Number("1.2".to_string()), Token::Format(".3".to_string())]
    );
}

#[test]
fn non_ascii_numerals_are_unknown() {
    let mut tokenizer = Tokenizer::new("٣٤ ½");
    assert_eq!(
        tokenizer.tokenize(),
        vec![Token::Unknown("٣٤".to_string()), Token::Unknown("½".to_string())]
    );
    assert!("٣٤".parse::<f64>().is_err());
    assert!("½".parse::<f64>().is_err());
}

#[test]
fn path_characters_and_extension_dots() {
    let mut tokenizer = Tokenizer::new("/data/my-clip_v2~/a.b. next");
    assert_eq!(
        tokenizer.tokenize(),
        vec![
            Token::Path("/data/my-clip_v2~/a.b".to_string()),
            Token::Format(".".to_string()),
            Token::Word("next".to_string()),
        ]
    );
}

#[test]
fn tabs_and_newlines_separate_tokens() {
    let mut tokenizer = Tokenizer::new("\tconvert\n\r a.mp4 ");
    assert_eq!(
        tokenizer.tokenize(),
        vec![Token::Word("convert".to_string()), Token::Path("a.mp4".to_string())]
    );
}

#[test]
fn second_tokenize_gives_nothing() {
    let mut tokenizer = Tokenizer::new("convert a.mp4 to b.avi");
    assert_eq!(tokenizer.tokenize().len(), 4);
    assert_eq!(tokenizer.tokenize(), vec![]);
}

#[test]
fn characters_that_start_no_token_are_passed_over() {
    let mut tokenizer = Tokenizer::new("convert a.mp4, now");
    assert_eq!(
        tokenizer.tokenize(),
        vec![
            Token::Word("convert".to_string()),
            Token::Path("a.mp4".to_string()),
            Token::Word("now".to_string()),
        ]
    );
    let mut tokenizer = Tokenizer::new("my-video.mp4 x, y -");
    assert_eq!(
        tokenizer.tokenize(),
        vec![
            Token::Word("my".to_string()),
            Token::Path("video.mp4".to_string()),
            Token::Word("x".to_string()),
            Token::Word("y".to_string()),
        ]
    );
    let mut tokenizer = Tokenizer::new(",;!");
    assert_eq!(tokenizer.tokenize(), vec![]);
}

#[test]
fn every_token_takes_a_character() {
    let text = "a-b ,, .x /p 1.5 ?? é";
    let mut tokenizer = Tokenizer::new(text);
    let tokens = tokenizer.tokenize();
    assert!(tokens.len() <= text.chars().count());
    for t in &tokens {
        let len = match t {
            Token::Word(s) | Token::Path(s) | Token::Format(s) | Token::Number(s) | Token::Unknown(s) => s.len(),
        };
        assert!(len > 0);
    }
}

#[test]
fn underscores_continue_words() {
    let mut tokenizer = Tokenizer::new("extract_audio from x");
    assert_eq!(
        tokenizer.tokenize(),
        vec![
            Token::Word("extract_audio".to_string()),
            Token::Word("from".to_string()),
            Token::Word("x".to_string()),
        ]
    );
}

#[test]
fn tokens_are_those_of_the_whitespace_pieces() {
    for text in [
        "convert /home/user/video.mp4 to output.avi",
        "a/b. c  1.5.x\tCONVERT\u{3000}é.MP4 ,x",
        "resize my-video.mp4 to 1280",
        "",
    ] {
        let whole = Tokenizer::new(text).tokenize();
        let pieces: Vec<Token> = text
            .split_whitespace()
            .flat_map(|w| Tokenizer::new(w).tokenize())
            .collect();
        assert_eq!(whole, pieces, "{}", text);
    }
}
