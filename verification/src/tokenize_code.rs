//! Extension-aware tokenization of file content.
//!
//! Three tokenizers turn raw text into an ordered sequence of token strings:
//! a language-aware one for Rust sources, a markup-aware one for tag-based
//! formats, and a generic one for everything else. Tokenization never fails;
//! unknown extensions fall back to the generic tokenizer. A companion
//! deduplication pass removes repeated tokens while preserving
//! first-occurrence order, as BM25 weighting wants unique terms.

use vstd::prelude::*;

use crate::text::{is_numeric_char, is_whitespace_char, numeric_char, push_char, str_to_chars,
    whitespace_char};

verus! {

/// The pending token, emitted as a singleton sequence if it is nonempty.
pub open spec fn flush_token(cur: Seq<char>) -> Seq<Seq<char>> {
    if cur.len() > 0 {
        seq![cur]
    } else {
        Seq::empty()
    }
}

/// The delimiters of the generic tokenizer: whitespace and a small
/// punctuation set.
pub open spec fn is_generic_delimiter(c: char) -> bool {
    is_whitespace_char(c) || c == '(' || c == ')' || c == '{' || c == '}' || c == '[' || c == ']'
        || c == '.' || c == ',' || c == ';' || c == ':' || c == '"' || c == '\''
}

/// The generic tokenizer on the remaining input `s` with pending token `cur`:
/// a delimiter ends the pending token, every other character extends it.
pub open spec fn generic_tokens_from(s: Seq<char>, cur: Seq<char>) -> Seq<Seq<char>>
    decreases s.len(),
{
    if s.len() == 0 {
        flush_token(cur)
    } else if is_generic_delimiter(s[0]) {
        flush_token(cur) + generic_tokens_from(s.drop_first(), Seq::empty())
    } else {
        generic_tokens_from(s.drop_first(), cur.push(s[0]))
    }
}

/// What the generic tokenizer returns: the maximal runs of non-delimiter
/// characters, in order.
pub open spec fn generic_tokens(s: Seq<char>) -> Seq<Seq<char>> {
    generic_tokens_from(s, Seq::empty())
}

/// Decides whether a character is a delimiter of the generic tokenizer.
fn generic_delimiter(c: char) -> (r: bool)
    ensures
        r == is_generic_delimiter(c),
{
    whitespace_char(c) || c == '(' || c == ')' || c == '{' || c == '}' || c == '[' || c == ']'
        || c == '.' || c == ',' || c == ';' || c == ':' || c == '"' || c == '\''
}

/// Tokenizes text with the generic delimiter set; used for every file whose
/// extension has no dedicated tokenizer.
pub fn tokenize_generic_code(input: &str) -> (tokens: Vec<String>)
    ensures
        tokens.deep_view() == generic_tokens(input@),
{
    let chars = str_to_chars(input);
    let mut tokens: Vec<String> = Vec::new();
    let mut cur = String::new();
    let mut i: usize = 0;
    proof {
        assert(input@.skip(0) =~= input@);
    }
    while i < chars.len()
        invariant
            i <= chars.len(),
            chars@ == input@,
            generic_tokens(input@) == tokens.deep_view() + generic_tokens_from(
                input@.skip(i as int),
                cur@,
            ),
        decreases chars.len() - i,
    {
        let c = chars[i];
        let ghost s_i = input@.skip(i as int);
        let ghost s_next = input@.skip(i as int + 1);
        proof {
            assert(s_i.len() > 0);
            assert(s_i[0] == input@[i as int]);
            assert(s_i.drop_first() =~= s_next);
        }
        if generic_delimiter(c) {
            proof {
                assert(generic_tokens_from(s_i, cur@) == flush_token(cur@)
                    + generic_tokens_from(s_next, Seq::empty()));
            }
            if !cur.as_str().is_empty() {
                let ghost prev = tokens.deep_view();
                let ghost cur_view = cur@;
                tokens.push(cur);
                cur = String::new();
                proof {
                    assert(cur@ =~= Seq::<char>::empty());
                    assert(tokens.deep_view() =~= prev + flush_token(cur_view));
                    assert(prev + (flush_token(cur_view) + generic_tokens_from(
                        s_next,
                        Seq::empty(),
                    )) =~= (prev + flush_token(cur_view)) + generic_tokens_from(
                        s_next,
                        Seq::empty(),
                    ));
                }
            } else {
                proof {
                    assert(cur@ =~= Seq::<char>::empty());
                    assert(flush_token(cur@) + generic_tokens_from(s_next, Seq::empty())
                        =~= generic_tokens_from(s_next, Seq::empty()));
                }
            }
        } else {
            proof {
                assert(generic_tokens_from(s_i, cur@) == generic_tokens_from(
                    s_next,
                    cur@.push(input@[i as int]),
                ));
            }
            push_char(&mut cur, c);
        }
        i = i + 1;
    }
    proof {
        assert(input@.skip(chars@.len() as int) =~= Seq::<char>::empty());
    }
    if !cur.as_str().is_empty() {
        let ghost prev = tokens.deep_view();
        let ghost cur_view = cur@;
        tokens.push(cur);
        proof {
            assert(tokens.deep_view() =~= prev + flush_token(cur_view));
        }
    } else {
        proof {
            assert(tokens.deep_view() =~= tokens.deep_view() + flush_token(cur@));
        }
    }
    tokens
}

/// Pushes the pending token onto `tokens` if it is nonempty and hands back an
/// empty pending token.
fn flush_current(tokens: &mut Vec<String>, cur: String) -> (new_cur: String)
    ensures
        final(tokens).deep_view() == old(tokens).deep_view() + flush_token(cur@),
        new_cur@ == Seq::<char>::empty(),
{
    if !cur.as_str().is_empty() {
        let ghost prev = tokens.deep_view();
        let ghost cur_view = cur@;
        tokens.push(cur);
        proof {
            assert(tokens.deep_view() =~= prev + flush_token(cur_view));
        }
    } else {
        proof {
            assert(tokens.deep_view() + flush_token(cur@) =~= tokens.deep_view());
        }
    }
    String::new()
}

/// The delimiters that end a token in Rust sources without becoming one.
pub open spec fn is_rust_delimiter(c: char) -> bool {
    c == '<' || c == '>' || c == '(' || c == ')' || c == '{' || c == '}' || c == '[' || c == ']'
        || c == ',' || c == ';' || c == ':' || c == '"' || c == '\'' || c == '=' || c == '?'
}

/// The Rust-aware tokenizer on the remaining input `s` with pending token
/// `cur`. Whitespace and delimiters end the pending token; a digit or `.`
/// extends a pending numeric token but starts a fresh one after a
/// non-numeric token; `->` is kept as a token of its own; `!` and `#` are
/// dropped; every other character extends the pending token.
pub open spec fn rust_tokens_from(s: Seq<char>, cur: Seq<char>) -> Seq<Seq<char>>
    decreases s.len(),
{
    if s.len() == 0 {
        flush_token(cur)
    } else if is_whitespace_char(s[0]) {
        flush_token(cur) + rust_tokens_from(s.drop_first(), Seq::empty())
    } else if is_numeric_char(s[0]) || s[0] == '.' {
        if cur.len() == 0 || is_numeric_char(cur[0]) {
            rust_tokens_from(s.drop_first(), cur.push(s[0]))
        } else {
            flush_token(cur) + rust_tokens_from(s.drop_first(), seq![s[0]])
        }
    } else if is_rust_delimiter(s[0]) {
        flush_token(cur) + rust_tokens_from(s.drop_first(), Seq::empty())
    } else if s[0] == '-' {
        if s.len() >= 2 && s[1] == '>' {
            flush_token(cur) + seq!["->"@] + rust_tokens_from(s.skip(2), Seq::empty())
        } else {
            flush_token(cur) + rust_tokens_from(s.drop_first(), Seq::empty())
        }
    } else if s[0] == '!' || s[0] == '#' {
        flush_token(cur) + rust_tokens_from(s.drop_first(), Seq::empty())
    } else {
        rust_tokens_from(s.drop_first(), cur.push(s[0]))
    }
}

/// What the Rust-aware tokenizer returns for a whole input.
pub open spec fn rust_tokens(s: Seq<char>) -> Seq<Seq<char>> {
    rust_tokens_from(s, Seq::empty())
}

/// Decides whether a character is a delimiter of the Rust-aware tokenizer.
fn rust_delimiter(c: char) -> (r: bool)
    ensures
        r == is_rust_delimiter(c),
{
    c == '<' || c == '>' || c == '(' || c == ')' || c == '{' || c == '}' || c == '[' || c == ']'
        || c == ',' || c == ';' || c == ':' || c == '"' || c == '\'' || c == '=' || c == '?'
}

/// Tokenizes Rust source text: splits at whitespace and delimiters, keeps a
/// contiguous digit/`.` run as one numeric token, keeps `->` as a token, and
/// drops `!` and the leading `#` of attribute-like annotations.
pub fn tokenize_rust_code(input: &str) -> (tokens: Vec<String>)
    ensures
        tokens.deep_view() == rust_tokens(input@),
{
    let chars = str_to_chars(input);
    let mut tokens: Vec<String> = Vec::new();
    let mut cur = String::new();
    let mut i: usize = 0;
    proof {
        assert(input@.skip(0) =~= input@);
    }
    while i < chars.len()
        invariant
            i <= chars@.len(),
            chars@ == input@,
            rust_tokens(input@) == tokens.deep_view() + rust_tokens_from(
                input@.skip(i as int),
                cur@,
            ),
        decreases chars@.len() - i,
    {
        let c = chars[i];
        let ghost s_i = input@.skip(i as int);
        let ghost s_next = input@.skip(i as int + 1);
        let ghost cur0 = cur@;
        let ghost toks0 = tokens.deep_view();
        proof {
            assert(s_i.len() > 0);
            assert(s_i[0] == input@[i as int]);
            assert(s_i.drop_first() =~= s_next);
        }
        let mut step: usize = 1;
        if whitespace_char(c) {
            cur = flush_current(&mut tokens, cur);
            proof {
                assert(rust_tokens_from(s_i, cur0) == flush_token(cur0) + rust_tokens_from(
                    s_next,
                    Seq::empty(),
                ));
                assert(toks0 + (flush_token(cur0) + rust_tokens_from(s_next, Seq::empty())) =~= (
                toks0 + flush_token(cur0)) + rust_tokens_from(s_next, Seq::empty()));
            }
        } else if numeric_char(c) || c == '.' {
            let extend = if cur.as_str().is_empty() {
                true
            } else {
                numeric_char(cur.as_str().get_char(0))
            };
            if extend {
                proof {
                    assert(rust_tokens_from(s_i, cur0) == rust_tokens_from(
                        s_next,
                        cur0.push(input@[i as int]),
                    ));
                }
                push_char(&mut cur, c);
            } else {
                cur = flush_current(&mut tokens, cur);
                push_char(&mut cur, c);
                proof {
                    assert(cur@ =~= seq![input@[i as int]]);
                    assert(rust_tokens_from(s_i, cur0) == flush_token(cur0) + rust_tokens_from(
                        s_next,
                        seq![input@[i as int]],
                    ));
                    assert(toks0 + (flush_token(cur0) + rust_tokens_from(
                        s_next,
                        seq![input@[i as int]],
                    )) =~= (toks0 + flush_token(cur0)) + rust_tokens_from(
                        s_next,
                        seq![input@[i as int]],
                    ));
                }
            }
        } else if rust_delimiter(c) || c == '!' || c == '#' {
            cur = flush_current(&mut tokens, cur);
            proof {
                assert(rust_tokens_from(s_i, cur0) == flush_token(cur0) + rust_tokens_from(
                    s_next,
                    Seq::empty(),
                ));
                assert(toks0 + (flush_token(cur0) + rust_tokens_from(s_next, Seq::empty())) =~= (
                toks0 + flush_token(cur0)) + rust_tokens_from(s_next, Seq::empty()));
            }
        } else if c == '-' {
            cur = flush_current(&mut tokens, cur);
            if i + 1 < chars.len() && chars[i + 1] == '>' {
                let ghost mid = tokens.deep_view();
                tokens.push(String::from_str("->"));
                step = 2;
                proof {
                    assert(s_i.len() >= 2);
                    assert(s_i[1] == input@[i as int + 1]);
                    assert(s_i.skip(2) =~= input@.skip(i as int + 2));
                    assert(rust_tokens_from(s_i, cur0) == flush_token(cur0) + seq!["->"@]
                        + rust_tokens_from(input@.skip(i as int + 2), Seq::empty()));
                    assert(tokens.deep_view() =~= mid + seq!["->"@]);
                    assert(toks0 + (flush_token(cur0) + seq!["->"@] + rust_tokens_from(
                        input@.skip(i as int + 2),
                        Seq::empty(),
                    )) =~= ((toks0 + flush_token(cur0)) + seq!["->"@]) + rust_tokens_from(
                        input@.skip(i as int + 2),
                        Seq::empty(),
                    ));
                }
            } else {
                proof {
                    if i as int + 1 < input@.len() {
                        assert(s_i[1] == input@[i as int + 1]);
                    }
                    assert(!(s_i.len() >= 2 && s_i[1] == '>'));
                    assert(rust_tokens_from(s_i, cur0) == flush_token(cur0) + rust_tokens_from(
                        s_next,
                        Seq::empty(),
                    ));
                    assert(toks0 + (flush_token(cur0) + rust_tokens_from(s_next, Seq::empty()))
                        =~= (toks0 + flush_token(cur0)) + rust_tokens_from(s_next, Seq::empty()));
                }
            }
        } else {
            proof {
                assert(rust_tokens_from(s_i, cur0) == rust_tokens_from(
                    s_next,
                    cur0.push(input@[i as int]),
                ));
            }
            push_char(&mut cur, c);
        }
        i = i + step;
    }
    proof {
        assert(input@.skip(chars@.len() as int) =~= Seq::<char>::empty());
    }
    let ghost cur_final = cur@;
    let _ = flush_current(&mut tokens, cur);
    proof {
        assert(rust_tokens_from(Seq::<char>::empty(), cur_final) == flush_token(cur_final));
    }
    tokens
}

/// The characters that end a token in markup text without becoming one:
/// tag brackets, `=`, `/` and whitespace.
pub open spec fn is_markup_delimiter(c: char) -> bool {
    c == '<' || c == '>' || c == '=' || c == '/' || is_whitespace_char(c)
}

/// The markup-aware tokenizer on the remaining input `s` with pending token
/// `cur`: delimiters end the pending token, a quote starts a quoted span,
/// every other character extends the pending token.
pub open spec fn markup_tokens_from(s: Seq<char>, cur: Seq<char>) -> Seq<Seq<char>>
    decreases s.len(),
{
    if s.len() == 0 {
        flush_token(cur)
    } else if is_markup_delimiter(s[0]) {
        flush_token(cur) + markup_tokens_from(s.drop_first(), Seq::empty())
    } else if s[0] == '"' || s[0] == '\'' {
        flush_token(cur) + markup_quoted_from(s.drop_first(), s[0], Seq::empty())
    } else {
        markup_tokens_from(s.drop_first(), cur.push(s[0]))
    }
}

/// A quoted attribute value in markup text: everything up to the matching
/// quote (or the end of input) is one token.
pub open spec fn markup_quoted_from(s: Seq<char>, quote: char, acc: Seq<char>) -> Seq<Seq<char>>
    decreases s.len(),
{
    if s.len() == 0 {
        flush_token(acc)
    } else if s[0] == quote {
        flush_token(acc) + markup_tokens_from(s.drop_first(), Seq::empty())
    } else {
        markup_quoted_from(s.drop_first(), quote, acc.push(s[0]))
    }
}

/// What the markup-aware tokenizer returns for a whole input.
pub open spec fn markup_tokens(s: Seq<char>) -> Seq<Seq<char>> {
    markup_tokens_from(s, Seq::empty())
}

/// Tokenizes tag-based markup: splits at `<`, `>`, `=`, `/` and whitespace,
/// and keeps each quoted attribute value together as a single token.
pub fn tokenize_html_code(input: &str) -> (tokens: Vec<String>)
    ensures
        tokens.deep_view() == markup_tokens(input@),
{
    let chars = str_to_chars(input);
    let mut tokens: Vec<String> = Vec::new();
    let mut cur = String::new();
    let mut i: usize = 0;
    proof {
        assert(input@.skip(0) =~= input@);
    }
    while i < chars.len()
        invariant
            i <= chars@.len(),
            chars@ == input@,
            markup_tokens(input@) == tokens.deep_view() + markup_tokens_from(
                input@.skip(i as int),
                cur@,
            ),
        decreases chars@.len() - i,
    {
        let c = chars[i];
        let ghost s_i = input@.skip(i as int);
        let ghost s_next = input@.skip(i as int + 1);
        let ghost cur0 = cur@;
        let ghost toks0 = tokens.deep_view();
        proof {
            assert(s_i.len() > 0);
            assert(s_i[0] == input@[i as int]);
            assert(s_i.drop_first() =~= s_next);
        }
        let mut next_i: usize = i + 1;
        if c == '<' || c == '>' || c == '=' || c == '/' || whitespace_char(c) {
            cur = flush_current(&mut tokens, cur);
            proof {
                assert(markup_tokens_from(s_i, cur0) == flush_token(cur0) + markup_tokens_from(
                    s_next,
                    Seq::empty(),
                ));
                assert(toks0 + (flush_token(cur0) + markup_tokens_from(s_next, Seq::empty())) =~= (
                toks0 + flush_token(cur0)) + markup_tokens_from(s_next, Seq::empty()));
            }
        } else if c == '"' || c == '\'' {
            cur = flush_current(&mut tokens, cur);
            proof {
                assert(markup_tokens_from(s_i, cur0) == flush_token(cur0) + markup_quoted_from(
                    s_next,
                    input@[i as int],
                    Seq::empty(),
                ));
                assert(toks0 + (flush_token(cur0) + markup_quoted_from(
                    s_next,
                    input@[i as int],
                    Seq::empty(),
                )) =~= (toks0 + flush_token(cur0)) + markup_quoted_from(
                    s_next,
                    input@[i as int],
                    Seq::empty(),
                ));
            }
            let mut j: usize = i + 1;
            let mut closed = false;
            while j < chars.len() && !closed
                invariant
                    i + 1 <= j <= chars@.len(),
                    i < chars@.len(),
                    chars@ == input@,
                    c == input@[i as int],
                    !closed ==> markup_tokens(input@) == tokens.deep_view() + markup_quoted_from(
                        input@.skip(j as int),
                        input@[i as int],
                        cur@,
                    ),
                    closed ==> markup_tokens(input@) == tokens.deep_view() + (flush_token(cur@)
                        + markup_tokens_from(input@.skip(j as int), Seq::empty())),
                decreases chars@.len() - j,
            {
                let d = chars[j];
                let ghost t_j = input@.skip(j as int);
                let ghost t_next = input@.skip(j as int + 1);
                let ghost acc0 = cur@;
                proof {
                    assert(t_j.len() > 0);
                    assert(t_j[0] == input@[j as int]);
                    assert(t_j.drop_first() =~= t_next);
                }
                if d == c {
                    closed = true;
                    proof {
                        assert(markup_quoted_from(t_j, input@[i as int], acc0) == flush_token(acc0)
                            + markup_tokens_from(t_next, Seq::empty()));
                    }
                } else {
                    proof {
                        assert(markup_quoted_from(t_j, input@[i as int], acc0)
                            == markup_quoted_from(
                            t_next,
                            input@[i as int],
                            acc0.push(input@[j as int]),
                        ));
                    }
                    push_char(&mut cur, d);
                }
                j = j + 1;
            }
            proof {
                if !closed {
                    assert(input@.skip(j as int) =~= Seq::<char>::empty());
                    assert(markup_quoted_from(Seq::<char>::empty(), input@[i as int], cur@)
                        == flush_token(cur@));
                    assert(markup_tokens_from(input@.skip(j as int), Seq::empty()) =~= Seq::<
                        Seq<char>,
                    >::empty());
                    assert(flush_token(cur@) + markup_tokens_from(
                        input@.skip(j as int),
                        Seq::empty(),
                    ) =~= flush_token(cur@));
                }
            }
            let ghost toks2 = tokens.deep_view();
            let ghost curq = cur@;
            cur = flush_current(&mut tokens, cur);
            proof {
                assert(toks2 + (flush_token(curq) + markup_tokens_from(
                    input@.skip(j as int),
                    Seq::empty(),
                )) =~= (toks2 + flush_token(curq)) + markup_tokens_from(
                    input@.skip(j as int),
                    Seq::empty(),
                ));
            }
            next_i = j;
        } else {
            proof {
                assert(markup_tokens_from(s_i, cur0) == markup_tokens_from(
                    s_next,
                    cur0.push(input@[i as int]),
                ));
            }
            push_char(&mut cur, c);
        }
        i = next_i;
    }
    proof {
        assert(input@.skip(chars@.len() as int) =~= Seq::<char>::empty());
    }
    let ghost cur_final = cur@;
    let _ = flush_current(&mut tokens, cur);
    proof {
        assert(markup_tokens_from(Seq::<char>::empty(), cur_final) == flush_token(cur_final));
    }
    tokens
}

/// The file-name part of a path: the characters after the last `/`, or the
/// whole path if it has none. A path that ends in `/` names no file.
pub open spec fn file_name_of(path: Seq<char>) -> Seq<char>
    decreases path.len(),
{
    if path.len() == 0 {
        Seq::empty()
    } else if path.last() == '/' {
        Seq::empty()
    } else {
        file_name_of(path.drop_last()).push(path.last())
    }
}

/// The index of the last `.` in a file name, or -1 if it has none.
pub open spec fn last_dot_index(name: Seq<char>) -> int
    decreases name.len(),
{
    if name.len() == 0 {
        -1
    } else if name.last() == '.' {
        name.len() - 1
    } else {
        last_dot_index(name.drop_last())
    }
}

/// The extension of a path: what follows the last `.` of its file name,
/// unless the name has no `.` or its only `.` is the leading one (a hidden
/// file has no extension).
pub open spec fn path_extension(path: Seq<char>) -> Option<Seq<char>> {
    let name = file_name_of(path);
    let d = last_dot_index(name);
    if d >= 1 {
        Some(name.skip(d + 1))
    } else {
        None
    }
}

/// Extracts the extension a path carries, if any.
pub fn extension_of(path: &str) -> (r: Option<String>)
    ensures
        match r {
            Some(e) => path_extension(path@) == Some(e@),
            None => path_extension(path@) is None,
        },
{
    let chars = str_to_chars(path);
    let len = chars.len();
    let mut k: usize = len;
    proof {
        assert(path@.subrange(0, len as int) =~= path@);
        assert(file_name_of(path@) + path@.skip(len as int) =~= file_name_of(path@));
    }
    while k > 0 && chars[k - 1] != '/'
        invariant
            k <= len,
            chars@ == path@,
            len == path@.len(),
            file_name_of(path@) == file_name_of(path@.subrange(0, k as int)) + path@.skip(k as int),
        decreases k,
    {
        proof {
            let pre = path@.subrange(0, k as int);
            assert(pre.last() == path@[k - 1]);
            assert(pre.drop_last() =~= path@.subrange(0, k as int - 1));
            assert(file_name_of(path@.subrange(0, k as int - 1)).push(path@[k - 1]) + path@.skip(
                k as int,
            ) =~= file_name_of(path@.subrange(0, k as int - 1)) + path@.skip(k as int - 1));
        }
        k = k - 1;
    }
    let ghost name = path@.skip(k as int);
    proof {
        if k > 0 {
            assert(path@.subrange(0, k as int).last() == path@[k - 1]);
            assert(file_name_of(path@.subrange(0, k as int)) =~= Seq::<char>::empty());
        } else {
            assert(path@.subrange(0, 0) =~= Seq::<char>::empty());
        }
        assert(file_name_of(path@) =~= name);
        assert(name.subrange(0, (len - k) as int) =~= name);
    }
    let mut m: usize = len;
    while m > k && chars[m - 1] != '.'
        invariant
            k <= m <= len,
            chars@ == path@,
            len == path@.len(),
            name == path@.skip(k as int),
            last_dot_index(name) == last_dot_index(name.subrange(0, (m - k) as int)),
        decreases m,
    {
        proof {
            let pre = name.subrange(0, (m - k) as int);
            assert(pre.last() == name[(m - k) as int - 1]);
            assert(name[(m - k) as int - 1] == path@[m - 1]);
            assert(pre.drop_last() =~= name.subrange(0, (m - k) as int - 1));
        }
        m = m - 1;
    }
    if m > k {
        proof {
            let pre = name.subrange(0, (m - k) as int);
            assert(pre.last() == name[(m - k) as int - 1]);
            assert(name[(m - k) as int - 1] == path@[m - 1]);
            assert(last_dot_index(name) == (m - k) as int - 1);
        }
        if m - 1 > k {
            let ext = path.substring_char(m, len);
            let r = ext.to_owned();
            proof {
                assert(name.skip((m - k) as int) =~= path@.subrange(m as int, len as int));
            }
            Some(r)
        } else {
            None
        }
    } else {
        proof {
            assert(name.subrange(0, 0) =~= Seq::<char>::empty());
        }
        None
    }
}

/// First-occurrence deduplication: a token is kept exactly when it does not
/// occur earlier in the sequence, so each distinct token appears once, at the
/// position of its first occurrence.
pub open spec fn dedup_tokens(s: Seq<Seq<char>>) -> Seq<Seq<char>>
    decreases s.len(),
{
    if s.len() == 0 {
        Seq::empty()
    } else if s.drop_last().contains(s.last()) {
        dedup_tokens(s.drop_last())
    } else {
        dedup_tokens(s.drop_last()).push(s.last())
    }
}

/// A sequence and its deduplication hold the same tokens.
pub proof fn lemma_dedup_tokens_contains(s: Seq<Seq<char>>, x: Seq<char>)
    ensures
        dedup_tokens(s).contains(x) <==> s.contains(x),
    decreases s.len(),
{
    if s.len() > 0 {
        lemma_dedup_tokens_contains(s.drop_last(), x);
        assert(s.contains(x) <==> (s.drop_last().contains(x) || s.last() == x)) by {
            if s.contains(x) {
                let i = choose|i: int| 0 <= i < s.len() && s[i] == x;
                if i < s.len() - 1 {
                    assert(s.drop_last()[i] == x);
                }
            }
            if s.drop_last().contains(x) {
                let i = choose|i: int| 0 <= i < s.drop_last().len() && s.drop_last()[i] == x;
                assert(s[i] == x);
            }
        }
        if !s.drop_last().contains(s.last()) {
            assert(dedup_tokens(s) == dedup_tokens(s.drop_last()).push(s.last()));
            assert forall|y: Seq<char>| dedup_tokens(s.drop_last()).contains(y) implies
                dedup_tokens(s).contains(y) by {
                let i = choose|i: int|
                    0 <= i < dedup_tokens(s.drop_last()).len() && dedup_tokens(s.drop_last())[i]
                        == y;
                assert(dedup_tokens(s)[i] == y);
            }
            assert(dedup_tokens(s).contains(s.last())) by {
                assert(dedup_tokens(s).last() == s.last());
            }
        }
    }
}

/// A token's first occurrence is at the same index whether or not the last
/// element is dropped, as long as the token occurs before it.
proof fn lemma_index_of_first_drop_last(s: Seq<Seq<char>>, x: Seq<char>)
    requires
        s.len() > 0,
        s.drop_last().contains(x),
    ensures
        s.index_of_first(x) == s.drop_last().index_of_first(x),
        s.index_of_first(x) is Some,
        0 <= s.index_of_first(x)->0 < s.len() - 1,
{
    let dl = s.drop_last();
    dl.index_of_first_ensures(x);
    let a = dl.index_of_first(x)->0;
    assert(s[a] == x);
    assert(s.contains(x));
    s.index_of_first_ensures(x);
    let b = s.index_of_first(x)->0;
    if b < a {
        assert(dl[b] == s[b]);
    }
    if a < b {
        assert(s[a] == x);
    }
}

/// A token that occurs only as the last element has its first occurrence
/// there.
proof fn lemma_index_of_first_last(s: Seq<Seq<char>>)
    requires
        s.len() > 0,
        !s.drop_last().contains(s.last()),
    ensures
        s.index_of_first(s.last()) == Some(s.len() - 1),
{
    assert(s.contains(s.last()));
    s.index_of_first_ensures(s.last());
    let b = s.index_of_first(s.last())->0;
    if b < s.len() - 1 {
        assert(s.drop_last()[b] == s.last());
    }
}

/// Law: deduplication keeps exactly the distinct tokens of its input, each
/// once, ordered by the index of its first occurrence in the input.
pub proof fn lemma_dedup_first_occurrence_order(s: Seq<Seq<char>>)
    ensures
        forall|x: Seq<char>| #[trigger] dedup_tokens(s).contains(x) <==> s.contains(x),
        forall|i: int, j: int|
            0 <= i < j < dedup_tokens(s).len() ==> dedup_tokens(s)[i] != dedup_tokens(s)[j],
        forall|i: int, j: int|
            0 <= i < j < dedup_tokens(s).len() ==> {
                &&& s.index_of_first(dedup_tokens(s)[i]) is Some
                &&& s.index_of_first(dedup_tokens(s)[j]) is Some
                &&& s.index_of_first(dedup_tokens(s)[i])->0 < s.index_of_first(
                    dedup_tokens(s)[j],
                )->0
            },
    decreases s.len(),
{
    assert forall|x: Seq<char>| #[trigger] dedup_tokens(s).contains(x) <==> s.contains(x) by {
        lemma_dedup_tokens_contains(s, x);
    }
    if s.len() > 0 {
        let dl = s.drop_last();
        let t = s.last();
        let d = dedup_tokens(s);
        let dd = dedup_tokens(dl);
        lemma_dedup_first_occurrence_order(dl);
        if dl.contains(t) {
            assert(d == dd);
            assert forall|i: int, j: int| 0 <= i < j < d.len() implies {
                &&& s.index_of_first(d[i]) is Some
                &&& s.index_of_first(d[j]) is Some
                &&& s.index_of_first(d[i])->0 < s.index_of_first(d[j])->0
            } by {
                assert(dd.contains(dd[i]));
                assert(dd.contains(dd[j]));
                lemma_dedup_tokens_contains(dl, d[i]);
                lemma_dedup_tokens_contains(dl, d[j]);
                lemma_index_of_first_drop_last(s, d[i]);
                lemma_index_of_first_drop_last(s, d[j]);
            }
        } else {
            assert(d == dd.push(t));
            assert forall|i: int, j: int| 0 <= i < j < d.len() implies d[i] != d[j] by {
                if j < d.len() - 1 {
                    assert(dd[i] == d[i] && dd[j] == d[j]);
                } else {
                    assert(d[j] == t);
                    assert(dd.contains(d[i])) by {
                        assert(dd[i] == d[i]);
                    }
                    lemma_dedup_tokens_contains(dl, d[i]);
                }
            }
            assert forall|i: int, j: int| 0 <= i < j < d.len() implies {
                &&& s.index_of_first(d[i]) is Some
                &&& s.index_of_first(d[j]) is Some
                &&& s.index_of_first(d[i])->0 < s.index_of_first(d[j])->0
            } by {
                assert(dd.contains(d[i])) by {
                    assert(dd[i] == d[i]);
                }
                lemma_dedup_tokens_contains(dl, d[i]);
                lemma_index_of_first_drop_last(s, d[i]);
                if j < d.len() - 1 {
                    assert(dd.contains(d[j])) by {
                        assert(dd[j] == d[j]);
                    }
                    lemma_dedup_tokens_contains(dl, d[j]);
                    lemma_index_of_first_drop_last(s, d[j]);
                } else {
                    assert(d[j] == t);
                    lemma_index_of_first_last(s);
                }
            }
        }
    }
}

/// Whether a vector of strings holds a string with the given characters.
fn contains_string(v: &Vec<String>, x: &String) -> (r: bool)
    ensures
        r == v.deep_view().contains(x@),
{
    let mut i: usize = 0;
    while i < v.len()
        invariant
            i <= v.len(),
            forall|j: int| 0 <= j < i ==> v.deep_view()[j] != x@,
        decreases v.len() - i,
    {
        if v[i] == *x {
            assert(v.deep_view()[i as int] == x@);
            return true;
        }
        i = i + 1;
    }
    false
}

/// Removes repeated tokens while preserving first-occurrence order.
pub fn deduplicate_tokens(tokens: Vec<String>) -> (r: Vec<String>)
    ensures
        r.deep_view() == dedup_tokens(tokens.deep_view()),
{
    let mut r: Vec<String> = Vec::new();
    let mut i: usize = 0;
    proof {
        assert(tokens.deep_view().subrange(0, 0) =~= Seq::<Seq<char>>::empty());
    }
    while i < tokens.len()
        invariant
            i <= tokens@.len(),
            r.deep_view() == dedup_tokens(tokens.deep_view().subrange(0, i as int)),
        decreases tokens@.len() - i,
    {
        let ghost prefix = tokens.deep_view().subrange(0, i as int);
        let ghost prefix_next = tokens.deep_view().subrange(0, i as int + 1);
        proof {
            assert(prefix_next.drop_last() =~= prefix);
            assert(prefix_next.last() == tokens.deep_view()[i as int]);
        }
        let t = tokens[i].clone();
        let keep = !contains_string(&r, &t);
        proof {
            assert(t@ == tokens.deep_view()[i as int]);
            lemma_dedup_tokens_contains(prefix, t@);
            assert(dedup_tokens(prefix_next) == if prefix.contains(t@) {
                dedup_tokens(prefix)
            } else {
                dedup_tokens(prefix).push(t@)
            });
        }
        if keep {
            let ghost prev = r.deep_view();
            r.push(t);
            proof {
                assert(r.deep_view() =~= prev.push(t@));
            }
        }
        i = i + 1;
    }
    proof {
        assert(tokens.deep_view().subrange(0, tokens@.len() as int) =~= tokens.deep_view());
    }
    r
}

/// What tokenizing a file returns: the tokens of the variant its extension
/// selects.
pub open spec fn code_tokens(input: Seq<char>, path: Seq<char>) -> Seq<Seq<char>> {
    crate::tokenizer::kind_tokens(crate::tokenizer::tokenizer_for(path), input)
}

/// Tokenizes text, with special handling for Rust and markup files; the
/// tokenizer is chosen by the extension of `file_path`, and unknown
/// extensions fall back to the generic tokenizer. Tokenization never fails.
pub fn tokenize_code(input: &str, file_path: &str) -> (tokens: Vec<String>)
    ensures
        tokens.deep_view() == code_tokens(input@, file_path@),
{
    let tokenizer = crate::tokenizer::get_tokenizer(file_path);
    tokenizer.tokenize(input)
}

} // verus!
