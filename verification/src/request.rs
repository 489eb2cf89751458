//! The request line of an HTTP request.
use crate::text::{chars_of, same_text, text_of};
use vstd::prelude::*;

verus! {

/// A parsed request line.
pub struct Request {
    pub method: String,
    pub path: String,
    pub query: Vec<(String, String)>,
}

/// What a [`Request`] holds.
pub struct RequestView {
    pub method: Seq<char>,
    pub path: Seq<char>,
    pub query: Seq<(Seq<char>, Seq<char>)>,
}

/// What a list of pairs holds.
pub open spec fn pairs(list: Seq<(String, String)>) -> Seq<(Seq<char>, Seq<char>)> {
    list.map_values(|p: (String, String)| (p.0@, p.1@))
}

impl View for Request {
    type V = RequestView;

    open spec fn view(&self) -> RequestView {
        RequestView { method: self.method@, path: self.path@, query: pairs(self.query@) }
    }
}

// ---------------------------------------------------------------------------
// Words and pieces
// ---------------------------------------------------------------------------

/// Whether `c` is white space in Unicode.
pub open spec fn is_space(c: char) -> bool {
    ||| '\u{9}' <= c && c <= '\u{d}'
    ||| c == ' '
    ||| c == '\u{85}'
    ||| c == '\u{a0}'
    ||| c == '\u{1680}'
    ||| '\u{2000}' <= c && c <= '\u{200a}'
    ||| c == '\u{2028}'
    ||| c == '\u{2029}'
    ||| c == '\u{202f}'
    ||| c == '\u{205f}'
    ||| c == '\u{3000}'
}

/// The number of characters before the first white space.
pub open spec fn word_len(s: Seq<char>) -> int
    decreases s.len(),
{
    if s.len() == 0 || is_space(s[0]) {
        0
    } else {
        1 + word_len(s.drop_first())
    }
}

/// The first white space is right after the word.
pub proof fn lemma_word_len(s: Seq<char>)
    ensures
        0 <= word_len(s) <= s.len(),
        forall|i: int| 0 <= i < word_len(s) ==> !is_space(#[trigger] s[i]),
        word_len(s) < s.len() ==> is_space(s[word_len(s)]),
    decreases s.len(),
{
    if s.len() > 0 && !is_space(s[0]) {
        lemma_word_len(s.drop_first());
        assert forall|i: int| 0 <= i < word_len(s) implies !is_space(#[trigger] s[i]) by {
            if i > 0 {
                assert(s.drop_first()[i - 1] == s[i]);
            }
        }
    }
}

/// The length of a word is where the first white space is.
pub proof fn lemma_word_len_is(s: Seq<char>, n: int)
    requires
        0 <= n <= s.len(),
        forall|i: int| 0 <= i < n ==> !is_space(#[trigger] s[i]),
        n < s.len() ==> is_space(s[n]),
    ensures
        word_len(s) == n,
{
    lemma_word_len(s);
    if word_len(s) < n {
        assert(!is_space(s[word_len(s)]));
    }
}

/// The words of a text: its longest runs without white space, in order.
pub open spec fn words(s: Seq<char>) -> Seq<Seq<char>>
    decreases s.len(),
{
    if s.len() == 0 {
        Seq::empty()
    } else if is_space(s[0]) {
        words(s.drop_first())
    } else {
        proof {
            lemma_word_len(s);
        }
        seq![s.take(word_len(s))] + words(s.skip(word_len(s)))
    }
}

/// The number of characters before the first `c`; all of them where there is none.
pub open spec fn span(s: Seq<char>, c: char) -> int
    decreases s.len(),
{
    if s.len() == 0 || s[0] == c {
        0
    } else {
        1 + span(s.drop_first(), c)
    }
}

/// The first `c` is right after the span.
pub proof fn lemma_span(s: Seq<char>, c: char)
    ensures
        0 <= span(s, c) <= s.len(),
        forall|i: int| 0 <= i < span(s, c) ==> #[trigger] s[i] != c,
        span(s, c) < s.len() ==> s[span(s, c)] == c,
    decreases s.len(),
{
    if s.len() > 0 && s[0] != c {
        lemma_span(s.drop_first(), c);
        assert forall|i: int| 0 <= i < span(s, c) implies #[trigger] s[i] != c by {
            if i > 0 {
                assert(s.drop_first()[i - 1] == s[i]);
            }
        }
    }
}

proof fn lemma_span_is(s: Seq<char>, c: char, n: int)
    requires
        0 <= n <= s.len(),
        forall|i: int| 0 <= i < n ==> #[trigger] s[i] != c,
        n < s.len() ==> s[n] == c,
    ensures
        span(s, c) == n,
{
    lemma_span(s, c);
    if span(s, c) < n {
        assert(s[span(s, c)] != c);
    }
}

/// The pieces of a text between the separators, in order.
pub open spec fn pieces(s: Seq<char>, separator: char) -> Seq<Seq<char>>
    decreases s.len(),
{
    proof {
        lemma_span(s, separator);
    }
    let n = span(s, separator);
    if n < s.len() {
        seq![s.take(n)] + pieces(s.skip(n + 1), separator)
    } else {
        seq![s]
    }
}

/// The part after the first `c`; nothing where there is none.
pub open spec fn rest_after(s: Seq<char>, c: char) -> Seq<char> {
    if span(s, c) < s.len() {
        s.skip(span(s, c) + 1)
    } else {
        Seq::empty()
    }
}

/// A `key=value` piece as a pair.
pub open spec fn pair_of(piece: Seq<char>) -> (Seq<char>, Seq<char>) {
    (piece.take(span(piece, '=')), rest_after(piece, '='))
}

/// The pairs of those pieces that hold a `=`, in order.
pub open spec fn pairs_of(list: Seq<Seq<char>>) -> Seq<(Seq<char>, Seq<char>)>
    decreases list.len(),
{
    if list.len() == 0 {
        Seq::empty()
    } else if list[0].contains('=') {
        seq![pair_of(list[0])] + pairs_of(list.drop_first())
    } else {
        pairs_of(list.drop_first())
    }
}

/// The request that a request line makes: the method is its first word and the
/// target its second; the path is the target up to the first `?`, and what
/// follows is a query of `key=value` pairs separated by `&`. `None` when the
/// line has fewer than two words.
pub open spec fn request_of(line: Seq<char>) -> Option<RequestView> {
    let list = words(line);
    if list.len() < 2 {
        None
    } else {
        let target = list[1];
        Some(
            RequestView {
                method: list[0],
                path: target.take(span(target, '?')),
                query: pairs_of(pieces(rest_after(target, '?'), '&')),
            },
        )
    }
}

// ---------------------------------------------------------------------------
// Parsing
// ---------------------------------------------------------------------------

fn is_white(c: char) -> (white: bool)
    ensures
        white == is_space(c),
{
    (c >= '\u{9}' && c <= '\u{d}') || c == ' ' || c == '\u{85}' || c == '\u{a0}' || c
        == '\u{1680}' || (c >= '\u{2000}' && c <= '\u{200a}') || c == '\u{2028}' || c
        == '\u{2029}' || c == '\u{202f}' || c == '\u{205f}' || c == '\u{3000}'
}

/// Where the next word starts, at `from` or after it.
fn skip_white(chars: &Vec<char>, from: usize) -> (at: usize)
    requires
        from <= chars@.len(),
    ensures
        from <= at <= chars@.len(),
        at < chars@.len() ==> !is_space(chars@[at as int]),
        words(chars@.skip(from as int)) == words(chars@.skip(at as int)),
{
    let mut at: usize = from;
    while at < chars.len() && is_white(chars[at])
        invariant
            from <= at <= chars@.len(),
            words(chars@.skip(from as int)) == words(chars@.skip(at as int)),
        decreases chars@.len() - at,
    {
        proof {
            assert(chars@.skip(at as int).drop_first() =~= chars@.skip(at + 1));
        }
        at += 1;
    }
    at
}

/// Where the word that starts at `from` ends.
fn word_end(chars: &Vec<char>, from: usize) -> (at: usize)
    requires
        from < chars@.len(),
        !is_space(chars@[from as int]),
    ensures
        from < at <= chars@.len(),
        words(chars@.skip(from as int)) == seq![chars@.subrange(from as int, at as int)] + words(
            chars@.skip(at as int),
        ),
{
    let n: usize = chars.len();
    let mut at: usize = from + 1;
    while at < n && !is_white(chars[at])
        invariant
            from < at <= chars@.len(),
            n == chars@.len(),
            forall|i: int| from <= i < at ==> !is_space(#[trigger] chars@[i]),
        decreases chars@.len() - at,
    {
        at += 1;
    }
    proof {
        let s = chars@.skip(from as int);
        let n = at - from;
        assert forall|i: int| 0 <= i < n implies !is_space(#[trigger] s[i]) by {
            assert(s[i] == chars@[from + i]);
        }
        lemma_word_len_is(s, n);
        assert(s.take(n) =~= chars@.subrange(from as int, at as int));
        assert(s.skip(n) =~= chars@.skip(at as int));
    }
    at
}

/// Where the first `c` of `chars[from..to]` is, or `to`.
fn find(chars: &Vec<char>, from: usize, to: usize, c: char) -> (at: usize)
    requires
        from <= to <= chars@.len(),
    ensures
        from <= at <= to,
        at - from == span(chars@.subrange(from as int, to as int), c),
{
    let mut at: usize = from;
    while at < to && chars[at] != c
        invariant
            from <= at <= to <= chars@.len(),
            forall|i: int| from <= i < at ==> #[trigger] chars@[i] != c,
        decreases to - at,
    {
        at += 1;
    }
    proof {
        let s = chars@.subrange(from as int, to as int);
        assert forall|i: int| 0 <= i < at - from implies #[trigger] s[i] != c by {
            assert(s[i] == chars@[from + i]);
        }
        lemma_span_is(s, c, at - from);
    }
    at
}

/// Reads the pairs of the query `chars[from..to]`.
fn read_query(chars: &Vec<char>, from: usize, to: usize) -> (query: Vec<(String, String)>)
    requires
        from <= to <= chars@.len(),
    ensures
        pairs(query@) == pairs_of(pieces(chars@.subrange(from as int, to as int), '&')),
{
    let ghost whole = pairs_of(pieces(chars@.subrange(from as int, to as int), '&'));
    let mut query: Vec<(String, String)> = Vec::new();
    let mut start: usize = from;
    proof {
        assert(pairs(query@) =~= Seq::<(Seq<char>, Seq<char>)>::empty());
        assert(pairs(query@) + whole =~= whole);
    }
    loop
        invariant
            from <= start <= to <= chars@.len(),
            whole == pairs_of(pieces(chars@.subrange(from as int, to as int), '&')),
            whole == pairs(query@) + pairs_of(
                pieces(chars@.subrange(start as int, to as int), '&'),
            ),
        decreases to - start,
    {
        let ghost left = chars@.subrange(start as int, to as int);
        let ghost piece = left.take(span(left, '&'));
        let ghost before = pairs(query@);
        let end: usize = find(chars, start, to, '&');
        let equals: usize = find(chars, start, end, '=');
        proof {
            assert(piece =~= chars@.subrange(start as int, end as int));
            lemma_span(piece, '=');
            assert(piece.contains('=') <==> equals < end) by {
                if equals < end {
                    assert(piece[equals - start] == '=');
                } else if piece.contains('=') {
                    let k = choose|k: int| 0 <= k < piece.len() && piece[k] == '=';
                    assert(piece[k] != '=');
                }
            }
        }
        if equals < end {
            let key = text_of(chars, start, equals);
            let value = text_of(chars, equals + 1, end);
            query.push((key, value));
            proof {
                assert(key@ =~= pair_of(piece).0);
                assert(value@ =~= pair_of(piece).1);
                assert(pairs(query@) =~= before.push(pair_of(piece)));
            }
        }
        proof {
            let list = pieces(left, '&');
            assert(list[0] =~= piece);
            if end < to {
                let next = left.skip(span(left, '&') + 1);
                assert(next =~= chars@.subrange(end + 1, to as int));
                assert(list.drop_first() =~= pieces(next, '&'));
            } else {
                assert(list.drop_first() =~= Seq::<Seq<char>>::empty());
                assert(pairs_of(list.drop_first()) =~= Seq::<(Seq<char>, Seq<char>)>::empty());
            }
            assert(before + pairs_of(list) =~= pairs(query@) + pairs_of(list.drop_first()));
        }
        if end == to {
            proof {
                assert(pairs(query@) + Seq::<(Seq<char>, Seq<char>)>::empty() =~= pairs(query@));
            }
            return query;
        }
        start = end + 1;
    }
}

/// Parses a request line; see [`request_of`].
pub fn parse_request(first_line: &str) -> (request: Option<Request>)
    ensures
        match request {
            Some(r) => request_of(first_line@) == Some(r@),
            None => request_of(first_line@) is None,
        },
{
    let chars = chars_of(first_line);
    proof {
        assert(chars@.skip(0) =~= chars@);
    }
    let method_at = skip_white(&chars, 0);
    if method_at == chars.len() {
        return None;
    }
    let method_end = word_end(&chars, method_at);
    let target_at = skip_white(&chars, method_end);
    let ghost after_method = words(chars@.skip(method_end as int));
    if target_at == chars.len() {
        proof {
            assert(words(chars@.skip(target_at as int)).len() == 0);
            assert(words(chars@).len() == 1);
        }
        return None;
    }
    let target_end = word_end(&chars, target_at);
    let mark = find(&chars, target_at, target_end, '?');
    let method = text_of(&chars, method_at, method_end);
    let path = text_of(&chars, target_at, mark);
    let ghost target = chars@.subrange(target_at as int, target_end as int);
    proof {
        assert(words(chars@)[0] == method@);
        assert(words(chars@)[1] == after_method[0]);
        assert(words(chars@)[1] == target);
        assert(path@ =~= target.take(span(target, '?')));
    }
    let query_at: usize = if mark < target_end {
        mark + 1
    } else {
        target_end
    };
    let query = read_query(&chars, query_at, target_end);
    proof {
        assert(rest_after(target, '?') =~= chars@.subrange(query_at as int, target_end as int));
    }
    Some(Request { method, path, query })
}

/// The value of the first pair with the key.
pub open spec fn param_of(list: Seq<(Seq<char>, Seq<char>)>, key: Seq<char>) -> Option<Seq<char>>
    decreases list.len(),
{
    if list.len() == 0 {
        None
    } else if list[0].0 == key {
        Some(list[0].1)
    } else {
        param_of(list.drop_first(), key)
    }
}

/// The value of the first parameter named `key`.
pub fn qparam<'a>(query: &'a [(String, String)], key: &str) -> (value: Option<&'a str>)
    ensures
        match value {
            Some(v) => param_of(pairs(query@), key@) == Some(v@),
            None => param_of(pairs(query@), key@) is None,
        },
{
    let ghost list = pairs(query@);
    let mut i: usize = 0;
    proof {
        assert(list.skip(0) =~= list);
    }
    while i < query.len()
        invariant
            i <= query@.len(),
            list == pairs(query@),
            param_of(list, key@) == param_of(list.skip(i as int), key@),
        decreases query@.len() - i,
    {
        proof {
            assert(list.skip(i as int)[0] == list[i as int]);
            assert(list[i as int] == (query@[i as int].0@, query@[i as int].1@));
            assert(list.skip(i as int).drop_first() =~= list.skip(i + 1));
        }
        if same_text(&query[i].0, key) {
            return Some(query[i].1.as_str());
        }
        i += 1;
    }
    None
}

/// Law: a parameter has the value of the first pair with its key, and none where
/// no pair has the key.
pub proof fn law_first_parameter_wins(list: Seq<(Seq<char>, Seq<char>)>, key: Seq<char>)
    ensures
        match param_of(list, key) {
            Some(value) => exists|i: int|
                0 <= i < list.len() && #[trigger] list[i] == (key, value) && forall|j: int|
                    0 <= j < i ==> (#[trigger] list[j]).0 != key,
            None => forall|i: int| 0 <= i < list.len() ==> (#[trigger] list[i]).0 != key,
        },
    decreases list.len(),
{
    if list.len() > 0 {
        let rest = list.drop_first();
        if list[0].0 == key {
            assert(list[0] == (key, list[0].1));
        } else {
            law_first_parameter_wins(rest, key);
            match param_of(rest, key) {
                Some(value) => {
                    let i = choose|i: int|
                        0 <= i < rest.len() && #[trigger] rest[i] == (key, value) && forall|j: int|
                            0 <= j < i ==> (#[trigger] rest[j]).0 != key;
                    assert(list[i + 1] == (key, value));
                    assert forall|j: int| 0 <= j < i + 1 implies (#[trigger] list[j]).0 != key by {
                        if j > 0 {
                            assert(rest[j - 1] == list[j]);
                        }
                    }
                },
                None => {
                    assert forall|i: int| 0 <= i < list.len() implies (#[trigger] list[i]).0
                        != key by {
                        if i > 0 {
                            assert(rest[i - 1] == list[i]);
                        }
                    }
                },
            }
        }
    }
}

// ---------------------------------------------------------------------------
// Reading back what a client writes
// ---------------------------------------------------------------------------

/// A pair as `key=value`.
pub open spec fn pair_text(pair: (Seq<char>, Seq<char>)) -> Seq<char> {
    pair.0 + seq!['='] + pair.1
}

/// Pairs as a query: `key=value`, separated by `&`.
pub open spec fn query_text(list: Seq<(Seq<char>, Seq<char>)>) -> Seq<char>
    decreases list.len(),
{
    if list.len() == 0 {
        Seq::empty()
    } else if list.len() == 1 {
        pair_text(list[0])
    } else {
        pair_text(list[0]) + seq!['&'] + query_text(list.drop_first())
    }
}

/// A pair that a query can hold: no `=` in its key, no `&` anywhere.
pub open spec fn is_query_pair(pair: (Seq<char>, Seq<char>)) -> bool {
    !pair.0.contains('=') && !pair.0.contains('&') && !pair.1.contains('&')
}

/// A text without white space.
pub open spec fn is_word(s: Seq<char>) -> bool {
    forall|i: int| 0 <= i < s.len() ==> !is_space(#[trigger] s[i])
}

/// What precedes the first `c`, and what follows it.
pub proof fn lemma_split_at(a: Seq<char>, c: char, b: Seq<char>)
    requires
        !a.contains(c),
    ensures
        span(a + seq![c] + b, c) == a.len(),
        (a + seq![c] + b).take(a.len() as int) == a,
        (a + seq![c] + b).skip(a.len() as int + 1) == b,
        rest_after(a + seq![c] + b, c) == b,
{
    let s = a + seq![c] + b;
    assert forall|i: int| 0 <= i < a.len() implies #[trigger] s[i] != c by {
        assert(a.contains(a[i]));
    }
    lemma_span_is(s, c, a.len() as int);
    assert(s.take(a.len() as int) =~= a);
    assert(s.skip(a.len() as int + 1) =~= b);
}

/// A pair reads back from its text.
pub proof fn lemma_pair_reads_back(pair: (Seq<char>, Seq<char>))
    requires
        is_query_pair(pair),
    ensures
        pair_of(pair_text(pair)) == pair,
        pair_text(pair).contains('='),
        !pair_text(pair).contains('&'),
{
    let text = pair_text(pair);
    lemma_split_at(pair.0, '=', pair.1);
    assert(text[pair.0.len() as int] == '=');
    if text.contains('&') {
        let k = choose|k: int| 0 <= k < text.len() && text[k] == '&';
        if k < pair.0.len() {
            assert(pair.0[k] == '&');
        } else {
            assert(pair.1[k - pair.0.len() - 1] == '&');
        }
    }
}

/// Law: the pairs of a query read back as they were written, in order.
pub proof fn law_query_reads_back(list: Seq<(Seq<char>, Seq<char>)>)
    requires
        forall|i: int| 0 <= i < list.len() ==> is_query_pair(#[trigger] list[i]),
    ensures
        pairs_of(pieces(query_text(list), '&')) == list,
    decreases list.len(),
{
    reveal_with_fuel(pairs_of, 2);
    if list.len() == 0 {
        let text = Seq::<char>::empty();
        assert(pieces(text, '&') =~= seq![text]);
        assert(seq![text].drop_first() =~= Seq::<Seq<char>>::empty());
        assert(pairs_of(seq![text]) =~= list);
    } else {
        let first = pair_text(list[0]);
        let rest = list.drop_first();
        assert(is_query_pair(list[0]));
        lemma_pair_reads_back(list[0]);
        if list.len() == 1 {
            lemma_span(first, '&');
            if span(first, '&') < first.len() {
                assert(first.contains(first[span(first, '&')]));
            }
            assert(pieces(first, '&') =~= seq![first]);
            assert(seq![first].drop_first() =~= Seq::<Seq<char>>::empty());
            assert(pairs_of(seq![first]) =~= list);
        } else {
            assert forall|i: int| 0 <= i < rest.len() implies is_query_pair(#[trigger] rest[i]) by {
                assert(rest[i] == list[i + 1]);
            }
            law_query_reads_back(rest);
            lemma_split_at(first, '&', query_text(rest));
            let all = pieces(query_text(list), '&');
            assert(all == seq![first] + pieces(query_text(rest), '&'));
            assert(all.drop_first() =~= pieces(query_text(rest), '&'));
            assert(seq![list[0]] + rest =~= list);
        }
    }
}

/// The first word of a text, and the words after it.
proof fn lemma_first_word(word: Seq<char>, rest: Seq<char>)
    requires
        word.len() > 0,
        is_word(word),
    ensures
        words(word + seq![' '] + rest) == seq![word] + words(rest),
{
    let s = word + seq![' '] + rest;
    let n = word.len() as int;
    assert forall|i: int| 0 <= i < n implies !is_space(#[trigger] s[i]) by {
        assert(s[i] == word[i]);
    }
    assert(s[n] == ' ');
    lemma_word_len_is(s, n);
    assert(s.take(n) =~= word);
    let tail = s.skip(n);
    assert(tail[0] == ' ');
    assert(tail.drop_first() =~= rest);
    assert(words(tail) == words(rest));
}

/// Law: a request line reads back as it was written: the method, the path up to
/// the `?`, and the pairs of the query. What follows the target does not matter.
pub proof fn law_request_line_reads_back(
    method: Seq<char>,
    path: Seq<char>,
    query: Seq<(Seq<char>, Seq<char>)>,
    rest: Seq<char>,
)
    requires
        method.len() > 0,
        is_word(method),
        is_word(path),
        !path.contains('?'),
        is_word(query_text(query)),
        forall|i: int| 0 <= i < query.len() ==> is_query_pair(#[trigger] query[i]),
    ensures
        request_of(
            method + seq![' '] + (path + seq!['?'] + query_text(query) + seq![' '] + rest),
        ) == Some(RequestView { method: method, path: path, query: query }),
{
    let target = path + seq!['?'] + query_text(query);
    assert forall|i: int| 0 <= i < target.len() implies !is_space(#[trigger] target[i]) by {
        if i < path.len() {
            assert(target[i] == path[i]);
        } else if i > path.len() {
            assert(target[i] == query_text(query)[i - path.len() - 1]);
        }
    }
    lemma_first_word(method, target + seq![' '] + rest);
    lemma_first_word(target, rest);
    lemma_split_at(path, '?', query_text(query));
    law_query_reads_back(query);
}

} // verus!
