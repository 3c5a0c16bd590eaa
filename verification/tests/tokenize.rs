use luckyshot::tokenize_code::{deduplicate_tokens, extension_of, tokenize_code};
use luckyshot::tokenizer::{get_tokenizer, TokenizerKind};

#[test]
fn test_tokenize_rust_code() {
    let code = r#"
            #[derive(Debug)]
            struct Point<T> {
                x: T,
                y: T,
            }

            impl<T> Point<T> {
                fn new(x: T, y: T) -> Self {
                    Point { x, y }
                }
            }

            fn main() {
                let point = Point::new(10.5, 20.0);
                println!("Point: {:?}", point);
            }
        "#;

    let tokens = tokenize_code(code, "test.rs");
    let expected = vec![
        "derive", "Debug", "struct", "Point", "T", "x", "T", "y", "T", "impl", "T", "Point", "T",
        "fn", "new", "x", "T", "y", "T", "->", "Self", "Point", "x", "y", "fn", "main", "let",
        "point", "Point", "new", "10.5", "20.0", "println", "Point", "point",
    ];

    assert_eq!(tokens, expected);
}

#[test]
fn test_tokenize_generic_code() {
    let code = r#"
            function calculateSum(a, b) {
                return a + b;
            }

            const result = calculateSum(10, 20);
            console.log("Result:", result);
        "#;

    let tokens = tokenize_code(code, "test.js");
    let expected = vec![
        "function",
        "calculateSum",
        "a",
        "b",
        "return",
        "a",
        "+",
        "b",
        "const",
        "result",
        "=",
        "calculateSum",
        "10",
        "20",
        "console",
        "log",
        "Result",
        "result",
    ];

    assert_eq!(tokens, expected);
}

#[test]
fn test_tokenize_html_code() {
    let code = r#"
            <div class="container">
                <h1>Hello World</h1>
                <p id="main-text">This is a test</p>
                <input type="text" value="search" />
            </div>
        "#;

    let tokens = tokenize_code(code, "test.html");
    let expected = vec![
        "div",
        "class",
        "container",
        "h1",
        "Hello",
        "World",
        "h1",
        "p",
        "id",
        "main-text",
        "This",
        "is",
        "a",
        "test",
        "p",
        "input",
        "type",
        "text",
        "value",
        "search",
        "div",
    ];

    assert_eq!(tokens, expected);
}

#[test]
fn test_deduplicate_tokens() {
    let tokens = vec![
        "fn".to_string(),
        "main".to_string(),
        "let".to_string(),
        "x".to_string(),
        "let".to_string(),
        "y".to_string(),
        "fn".to_string(),
    ];

    let deduped = deduplicate_tokens(tokens);
    let expected = vec![
        "fn".to_string(),
        "main".to_string(),
        "let".to_string(),
        "x".to_string(),
        "y".to_string(),
    ];

    assert_eq!(deduped, expected);
}

#[test]
fn test_deduplicate_empty_and_all_equal() {
    assert_eq!(deduplicate_tokens(Vec::new()), Vec::<String>::new());
    let tokens = vec!["a".to_string(), "a".to_string(), "a".to_string()];
    assert_eq!(deduplicate_tokens(tokens), vec!["a".to_string()]);
}

#[test]
fn test_htm_extension_uses_markup_tokenizer() {
    let tokens = tokenize_code("<p>hi</p>", "page.htm");
    assert_eq!(tokens, vec!["p", "hi", "p"]);
}

#[test]
fn test_unknown_extension_falls_back_to_generic() {
    // The generic tokenizer does not treat `=` or `->` specially.
    let tokens = tokenize_code("a = b -> c.d", "notes.txt");
    assert_eq!(tokens, vec!["a", "=", "b", "->", "c", "d"]);
}

#[test]
fn test_no_extension_falls_back_to_generic() {
    let tokens = tokenize_code("let x = 1;", "Makefile");
    assert_eq!(tokens, vec!["let", "x", "=", "1"]);
}

#[test]
fn test_rust_arrow_and_attribute_handling() {
    // A digit run after a non-numeric token starts a numeric token of its
    // own, so `u32` splits; `-` without `>` is dropped.
    let tokens = tokenize_code("#[test] fn f() -> u32 { 1 - 2 }", "lib.rs");
    assert_eq!(tokens, vec!["test", "fn", "f", "->", "u", "32", "1", "2"]);
}

#[test]
fn test_html_unterminated_quote_keeps_value() {
    let tokens = tokenize_code("<a href=\"broken", "x.html");
    assert_eq!(tokens, vec!["a", "href", "broken"]);
}

#[test]
fn test_rust_trailing_dash_and_numeric_run() {
    // A `-` not followed by `>` is dropped, even at the end of input.
    assert_eq!(tokenize_code("a -", "x.rs"), vec!["a"]);
    assert_eq!(tokenize_code("a-", "x.rs"), vec!["a"]);
    // A contiguous digit/`.` run stays one numeric token.
    assert_eq!(tokenize_code("1.2.3", "x.rs"), vec!["1.2.3"]);
}

#[test]
fn test_generic_consecutive_delimiters_yield_no_empty_tokens() {
    assert_eq!(tokenize_code("a..b,,c", "x.txt"), vec!["a", "b", "c"]);
    assert_eq!(tokenize_code("   ", "x.txt"), Vec::<String>::new());
}

#[test]
fn test_html_single_quoted_attribute_value() {
    let tokens = tokenize_code("<input type='text area'/>", "x.html");
    assert_eq!(tokens, vec!["input", "type", "text area"]);
}

#[test]
fn test_tokenizers_on_empty_input() {
    assert_eq!(tokenize_code("", "x.rs"), Vec::<String>::new());
    assert_eq!(tokenize_code("", "x.html"), Vec::<String>::new());
    assert_eq!(tokenize_code("", "x.txt"), Vec::<String>::new());
}

#[test]
fn test_extension_of_paths() {
    assert_eq!(extension_of("test.rs"), Some("rs".to_string()));
    assert_eq!(extension_of("a/b/test.html"), Some("html".to_string()));
    assert_eq!(extension_of("archive.tar.gz"), Some("gz".to_string()));
    assert_eq!(extension_of("noext"), None);
    assert_eq!(extension_of(".gitignore"), None);
    assert_eq!(extension_of("dir.v1/noext"), None);
    assert_eq!(extension_of("foo."), Some("".to_string()));
}

#[test]
fn test_get_tokenizer_dispatch() {
    assert_eq!(get_tokenizer("src/main.rs"), TokenizerKind::RustCode);
    assert_eq!(get_tokenizer("index.html"), TokenizerKind::Markup);
    assert_eq!(get_tokenizer("page.htm"), TokenizerKind::Markup);
    assert_eq!(get_tokenizer("script.js"), TokenizerKind::Generic);
    assert_eq!(get_tokenizer("README"), TokenizerKind::Generic);
}

#[test]
fn test_tokenizer_kind_tokenize_matches_dispatch() {
    let kind = get_tokenizer("test.rs");
    assert_eq!(kind.tokenize("fn main()"), tokenize_code("fn main()", "test.rs"));
}
