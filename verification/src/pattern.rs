//! A small deterministic matcher for route patterns.

use crate::order;
use crate::table::Table;
use crate::text;
use vstd::prelude::*;

verus! {

/// The parts of a pattern.
#[verifier::ext_equal]
pub enum TokenView {
    Literal(Seq<char>),
    Wildcard,
    Capture(Seq<char>),
}

/// How many characters open a capture at the start of `s`: two for `${`, one
/// for `{`, none otherwise.
pub open spec fn capture_offset(s: Seq<char>) -> int {
    if s.len() >= 2 && s[0] == '$' && s[1] == '{' {
        2
    } else if s.len() >= 1 && s[0] == '{' {
        1
    } else {
        0
    }
}

/// Where the capture at the start of `s` closes, if there is one with a name.
pub open spec fn capture_end(s: Seq<char>) -> Option<int> {
    match text::find(s, seq!['}']) {
        Some(end) => if 0 < capture_offset(s) < end {
            Some(end)
        } else {
            None
        },
        None => None,
    }
}

/// The smaller of `bound` and the first position of `part` in `s` behind the start.
pub open spec fn cut_before(s: Seq<char>, part: Seq<char>, bound: int) -> int {
    match text::find_from(s, part, 1) {
        Some(at) => if at < bound {
            at
        } else {
            bound
        },
        None => bound,
    }
}

/// The length of the literal text at the start of `s`: up to where a wildcard or a
/// capture may begin next. Braces without a name are literal text.
pub open spec fn literal_end(s: Seq<char>) -> int {
    let end = s.len() as int;
    let end = cut_before(s, seq!['*'], end);
    let end = cut_before(s, seq!['{'], end);
    cut_before(s, seq!['$', '{'], end)
}

/// The parts of a pattern's text.
pub open spec fn parts(s: Seq<char>) -> Seq<TokenView>
    decreases s.len(),
{
    if s.len() == 0 {
        Seq::empty()
    } else if s[0] == '*' {
        seq![TokenView::Wildcard] + parts(s.skip(1))
    } else if let Some(end) = capture_end(s) {
        if end + 1 <= s.len() {
            seq![TokenView::Capture(s.subrange(capture_offset(s), end))] + parts(s.skip(end + 1))
        } else {
            Seq::empty()
        }
    } else if 0 < literal_end(s) <= s.len() {
        seq![TokenView::Literal(s.take(literal_end(s)))] + parts(s.skip(literal_end(s)))
    } else {
        Seq::empty()
    }
}

/// What the captures of a pattern hold when the whole of `value` matches it, in
/// the order of the pattern. A wildcard takes as much as it can, a capture as
/// little as it can but not nothing.
pub open spec fn matched(tokens: Seq<TokenView>, value: Seq<char>) -> Option<
    Seq<(Seq<char>, Seq<char>)>,
>
    decreases tokens.len(), 0int,
{
    if tokens.len() == 0 {
        if value.len() == 0 {
            Some(Seq::empty())
        } else {
            None
        }
    } else {
        let rest = tokens.skip(1);
        match tokens[0] {
            TokenView::Literal(literal) => if literal.is_prefix_of(value) {
                matched(rest, value.skip(literal.len() as int))
            } else {
                None
            },
            TokenView::Wildcard => longest(rest, value, value.len() as int),
            TokenView::Capture(name) => shortest(rest, name, value, 1),
        }
    }
}

/// The match of `tokens` after the longest prefix of `value`, of at most
/// `taken` characters, after which they match.
pub open spec fn longest(tokens: Seq<TokenView>, value: Seq<char>, taken: int) -> Option<
    Seq<(Seq<char>, Seq<char>)>,
>
    decreases tokens.len(), taken + 1,
{
    if taken < 0 {
        None
    } else {
        match matched(tokens, value.skip(taken)) {
            Some(captures) => Some(captures),
            None => longest(tokens, value, taken - 1),
        }
    }
}

/// The match of `tokens` after the shortest prefix of `value`, of at least
/// `taken` characters, after which they match; the prefix is captured.
pub open spec fn shortest(
    tokens: Seq<TokenView>,
    name: Seq<char>,
    value: Seq<char>,
    taken: int,
) -> Option<Seq<(Seq<char>, Seq<char>)>>
    decreases tokens.len(), value.len() - taken + 1,
{
    if taken > value.len() {
        None
    } else {
        match matched(tokens, value.skip(taken)) {
            Some(captures) => Some(seq![(name, value.take(taken))] + captures),
            None => shortest(tokens, name, value, taken + 1),
        }
    }
}

/// The map of a list of captures, later ones over earlier ones.
pub open spec fn capture_map(captures: Seq<(Seq<char>, Seq<char>)>) -> Map<Seq<char>, Seq<char>>
    decreases captures.len(),
{
    if captures.len() == 0 {
        Map::empty()
    } else {
        capture_map(captures.drop_last()).insert(captures.last().0, captures.last().1)
    }
}

/// What a pattern's captures hold when `value` matches it.
pub open spec fn pattern_match(pattern: Seq<char>, value: Seq<char>) -> Option<
    Map<Seq<char>, Seq<char>>,
> {
    match matched(parts(pattern), value) {
        Some(captures) => Some(capture_map(captures)),
        None => None,
    }
}

/// `pieces` cut `value` as the tokens say: literal text stands for itself, a
/// wildcard for any text, a capture for any text that is not empty.
pub open spec fn fits(tokens: Seq<TokenView>, value: Seq<char>, pieces: Seq<Seq<char>>) -> bool
    decreases tokens.len(),
{
    if tokens.len() == 0 {
        value.len() == 0 && pieces.len() == 0
    } else {
        &&& pieces.len() > 0
        &&& pieces[0].is_prefix_of(value)
        &&& match tokens[0] {
            TokenView::Literal(literal) => pieces[0] == literal,
            TokenView::Wildcard => true,
            TokenView::Capture(_) => pieces[0].len() > 0,
        }
        &&& fits(tokens.skip(1), value.skip(pieces[0].len() as int), pieces.skip(1))
    }
}

/// The captures of a cut, in order.
pub open spec fn captures_of(tokens: Seq<TokenView>, pieces: Seq<Seq<char>>) -> Seq<
    (Seq<char>, Seq<char>),
>
    decreases tokens.len(),
{
    if tokens.len() == 0 {
        Seq::empty()
    } else {
        let rest = captures_of(tokens.skip(1), pieces.skip(1));
        match tokens[0] {
            TokenView::Capture(name) => seq![(name, pieces[0])] + rest,
            _ => rest,
        }
    }
}

/// A value matches a pattern exactly when it can be cut so that literal text
/// stands for itself, wildcards for any text and captures for text that is not
/// empty; the captures found are those of such a cut.
pub proof fn match_is_a_cut(tokens: Seq<TokenView>, value: Seq<char>)
    ensures
        matched(tokens, value) is Some <==> exists|pieces: Seq<Seq<char>>|
            fits(tokens, value, pieces),
        matched(tokens, value) matches Some(captures) ==> exists|pieces: Seq<Seq<char>>|
            #![trigger fits(tokens, value, pieces)]
            fits(tokens, value, pieces) && captures == captures_of(tokens, pieces),
    decreases tokens.len(), 0int,
{
    if tokens.len() == 0 {
        assert(value.len() == 0 ==> fits(tokens, value, Seq::empty()));
    } else {
        let rest = tokens.skip(1);
        assert forall|n: int| 0 <= n <= value.len() implies (#[trigger] matched(
            rest,
            value.skip(n),
        ) is Some ==> exists|more: Seq<Seq<char>>|
            #![trigger fits(rest, value.skip(n), more)]
            fits(rest, value.skip(n), more) && matched(rest, value.skip(n)) == Some(
                captures_of(rest, more),
            )) && ((exists|more: Seq<Seq<char>>| fits(rest, value.skip(n), more)) ==> matched(
            rest,
            value.skip(n),
        ) is Some) by {
            match_is_a_cut(rest, value.skip(n));
        }
        match tokens[0] {
            TokenView::Literal(literal) => {
                if literal.is_prefix_of(value) {
                    lemma_cut_step(tokens, value, literal.len() as int);
                }
            },
            TokenView::Wildcard => {
                lemma_longest(rest, value, value.len() as int);
                if longest(rest, value, value.len() as int) is Some {
                    let n = choose|n: int|
                        0 <= n <= value.len() && #[trigger] matched(rest, value.skip(n)) is Some
                            && longest(rest, value, value.len() as int) == matched(
                            rest,
                            value.skip(n),
                        );
                    lemma_cut_step(tokens, value, n);
                }
            },
            TokenView::Capture(name) => {
                lemma_shortest(rest, name, value, 1);
                if shortest(rest, name, value, 1) is Some {
                    let n = choose|n: int|
                        1 <= n <= value.len() && #[trigger] matched(rest, value.skip(n)) is Some
                            && shortest(rest, name, value, 1) == Some(
                            seq![(name, value.take(n))] + matched(rest, value.skip(n))->0,
                        );
                    lemma_cut_step(tokens, value, n);
                }
            },
        }
        if exists|pieces: Seq<Seq<char>>| fits(tokens, value, pieces) {
            let pieces = choose|pieces: Seq<Seq<char>>| fits(tokens, value, pieces);
            let n = pieces[0].len() as int;
            assert(fits(rest, value.skip(n), pieces.skip(1)));
            assert(matched(rest, value.skip(n)) is Some);
        }
    }
}

proof fn lemma_cut_step(tokens: Seq<TokenView>, value: Seq<char>, n: int)
    requires
        tokens.len() > 0,
        0 <= n <= value.len(),
        tokens[0] matches TokenView::Literal(literal) ==> literal == value.take(n),
        tokens[0] is Capture ==> n > 0,
        matched(tokens.skip(1), value.skip(n)) is Some ==> exists|more: Seq<Seq<char>>|
            #![trigger fits(tokens.skip(1), value.skip(n), more)]
            fits(tokens.skip(1), value.skip(n), more) && matched(tokens.skip(1), value.skip(n))
                == Some(captures_of(tokens.skip(1), more)),
    ensures
        matched(tokens.skip(1), value.skip(n)) matches Some(captures) ==> exists|
            pieces: Seq<Seq<char>>,
        |
            #![trigger fits(tokens, value, pieces)]
            fits(tokens, value, pieces) && captures_of(tokens, pieces) == (match tokens[0] {
                TokenView::Capture(name) => seq![(name, value.take(n))] + captures,
                _ => captures,
            }),
{
    let rest = tokens.skip(1);
    if matched(rest, value.skip(n)) is Some {
        let more = choose|more: Seq<Seq<char>>|
            #![trigger fits(rest, value.skip(n), more)]
            fits(rest, value.skip(n), more) && matched(rest, value.skip(n)) == Some(
                captures_of(rest, more),
            );
        let pieces = seq![value.take(n)] + more;
        assert(pieces.skip(1) =~= more);
        assert(fits(tokens, value, pieces));
    }
}

proof fn lemma_longest(tokens: Seq<TokenView>, value: Seq<char>, taken: int)
    requires
        taken <= value.len(),
    ensures
        match longest(tokens, value, taken) {
            Some(captures) => exists|n: int|
                0 <= n <= taken && #[trigger] matched(tokens, value.skip(n)) == Some(captures),
            None => forall|n: int|
                0 <= n <= taken ==> #[trigger] matched(tokens, value.skip(n)) is None,
        },
    decreases taken + 1,
{
    if taken >= 0 {
        if matched(tokens, value.skip(taken)) is None {
            lemma_longest(tokens, value, taken - 1);
        }
    }
}

proof fn lemma_shortest(tokens: Seq<TokenView>, name: Seq<char>, value: Seq<char>, taken: int)
    requires
        0 <= taken,
    ensures
        match shortest(tokens, name, value, taken) {
            Some(captures) => exists|n: int|
                taken <= n <= value.len() && #[trigger] matched(tokens, value.skip(n)) is Some
                    && captures == seq![(name, value.take(n))] + matched(tokens, value.skip(n))->0,
            None => forall|n: int|
                taken <= n <= value.len() ==> #[trigger] matched(tokens, value.skip(n)) is None,
        },
    decreases value.len() - taken + 1,
{
    if taken <= value.len() {
        if matched(tokens, value.skip(taken)) is None {
            lemma_shortest(tokens, name, value, taken + 1);
        }
    }
}

/// A part of a pattern.
#[derive(Debug)]
enum Token {
    Literal(String),
    Wildcard,
    Capture(String),
}

impl View for Token {
    type V = TokenView;

    closed spec fn view(&self) -> TokenView {
        match self {
            Token::Literal(text) => TokenView::Literal(text@),
            Token::Wildcard => TokenView::Wildcard,
            Token::Capture(name) => TokenView::Capture(name@),
        }
    }
}

/// What the captures of a pattern hold, by name.
pub type Capture = Table<String>;

/// The texts that a capture map holds.
pub open spec fn captured(captures: Capture) -> Map<Seq<char>, Seq<char>> {
    captures@.map_values(|value: String| value@)
}

/// A small deterministic matcher for route patterns.
///
/// `*` matches any sequence and `{name}` (or the compatible `${name}` spelling)
/// captures a non-empty sequence. Literal text is matched exactly. Captures are
/// useful to database query adapters.
#[derive(Debug)]
pub struct Pattern {
    source: String,
    tokens: Vec<Token>,
}

impl View for Pattern {
    type V = Seq<char>;

    closed spec fn view(&self) -> Seq<char> {
        self.source@
    }
}

/// The names of the captures among the parts of a pattern.
pub open spec fn names_of(tokens: Seq<TokenView>) -> Set<Seq<char>> {
    Set::new(|name: Seq<char>| tokens.contains(TokenView::Capture(name)))
}

impl Pattern {
    #[verifier::type_invariant]
    spec fn well_formed(self) -> bool {
        crate::error::views(self.tokens@) == parts(self.source@)
    }

    /// The pattern that a text writes.
    pub fn new(pattern: &str) -> (r: Self)
        ensures
            r@ == pattern@,
    {
        let chars = text::chars_of(pattern);
        Pattern { source: pattern.to_owned(), tokens: tokens(&chars) }
    }

    /// What the captures hold if the whole of `value` matches the pattern.
    pub fn matches(&self, value: &str) -> (r: Option<Capture>)
        ensures
            match r {
                Some(captures) => pattern_match(self@, value@) == Some(captured(captures)),
                None => pattern_match(self@, value@) is None,
            },
    {
        proof {
            use_type_invariant(self);
        }
        let chars = text::chars_of(value);
        assert(crate::error::views(self.tokens@).skip(0) =~= parts(self.source@));
        assert(chars@.skip(0) =~= chars@);
        match match_tokens(&self.tokens, 0, &chars, 0) {
            Some(found) => Some(collect(found)),
            None => None,
        }
    }

    /// Names declared by `{name}` and `${name}` captures, independent of a
    /// concrete match, each once and in order. Database adapters use this for
    /// configuration checks.
    pub fn capture_names(&self) -> (r: Vec<String>)
        ensures
            crate::error::views(r@).to_set() == names_of(parts(self@)),
            crate::error::views(r@).no_duplicates(),
            order::in_order::<String>(crate::error::views(r@)),
    {
        proof {
            use_type_invariant(self);
        }
        let ghost views = crate::error::views(self.tokens@);
        let mut names: Vec<String> = Vec::new();
        let mut i: usize = 0;
        assert(names@.map_values(|name: String| name@).to_set() =~= names_of(views.take(0)));
        while i < self.tokens.len()
            invariant
                i <= self.tokens.len(),
                views == crate::error::views(self.tokens@),
                names@.map_values(|name: String| name@).to_set() == names_of(views.take(i as int)),
                names@.map_values(|name: String| name@).no_duplicates(),
            decreases self.tokens.len() - i,
        {
            let ghost before = names@.map_values(|name: String| name@);
            let ghost seen = views.take(i as int);
            let ghost seen_next = views.take(i + 1);
            assert(seen_next =~= seen.push(views[i as int]));
            match &self.tokens[i] {
                Token::Capture(name) => {
                    assert(views[i as int] == TokenView::Capture(name@));
                    if !listed(&names, name.as_str()) {
                        names.push(name.clone());
                        proof {
                            let after = names@.map_values(|name: String| name@);
                            assert(after =~= before.push(name@));
                            assert(!before.contains(name@));
                            assert forall|x: Seq<char>| after.to_set().contains(x) <==> names_of(
                                seen_next,
                            ).contains(x) by {
                                assert(before.to_set().contains(x) <==> names_of(seen).contains(x));
                                lemma_push_contains(seen, views[i as int], TokenView::Capture(x));
                                lemma_push_contains(before, name@, x);
                            }
                            assert(after.to_set() =~= names_of(seen_next));
                        }
                    } else {
                        proof {
                            assert forall|x: Seq<char>| names_of(seen).contains(x) <==> names_of(
                                seen_next,
                            ).contains(x) by {
                                lemma_push_contains(seen, views[i as int], TokenView::Capture(x));
                                assert(before.to_set().contains(name@));
                            }
                            assert(names_of(seen) =~= names_of(seen_next));
                        }
                    }
                },
                _ => {
                    proof {
                        assert(!(views[i as int] is Capture));
                        assert forall|x: Seq<char>| names_of(seen).contains(x) <==> names_of(
                            seen_next,
                        ).contains(x) by {
                            lemma_push_contains(seen, views[i as int], TokenView::Capture(x));
                        }
                        assert(names_of(seen) =~= names_of(seen_next));
                    }
                },
            }
            i += 1;
        }
        assert(views.take(views.len() as int) =~= views);
        let ghost all = crate::error::views(names@);
        assert(all =~= names@.map_values(|name: String| name@));
        let sorted = order::arrange(names);
        proof {
            let arranged = crate::error::views(sorted@);
            order::arranging_orders::<String>(all);
            all.lemma_multiset_has_no_duplicates();
            all.to_multiset_ensures();
            arranged.to_multiset_ensures();
            assert(arranged.to_set() =~= all.to_set()) by {
                assert forall|x: Seq<char>| arranged.contains(x) == all.contains(x) by {
                    assert(arranged.contains(x) <==> arranged.to_multiset().count(x) > 0);
                    assert(all.contains(x) <==> all.to_multiset().count(x) > 0);
                }
            }
            arranged.lemma_multiset_has_no_duplicates_conv();
        }
        sorted
    }

    /// The text of the pattern.
    pub fn source(&self) -> (r: &str)
        ensures
            r@ == self@,
    {
        self.source.as_str()
    }

    /// Whether the pattern can match more than its own text.
    pub fn has_wildcard_or_capture(&self) -> (r: bool)
        ensures
            r == exists|i: int| 0 <= i < parts(self@).len() && !(#[trigger] parts(self@)[i] is Literal),
    {
        proof {
            use_type_invariant(self);
        }
        let ghost views = crate::error::views(self.tokens@);
        let mut i: usize = 0;
        while i < self.tokens.len()
            invariant
                i <= self.tokens.len(),
                views == crate::error::views(self.tokens@),
                views == parts(self@),
                forall|j: int| 0 <= j < i ==> #[trigger] views[j] is Literal,
            decreases self.tokens.len() - i,
        {
            match &self.tokens[i] {
                Token::Literal(_) => {
                    assert(views[i as int] is Literal);
                },
                _ => {
                    assert(!(views[i as int] is Literal));
                    return true;
                },
            }
            i += 1;
        }
        false
    }
}

impl Clone for Pattern {
    fn clone(&self) -> (r: Self)
        ensures
            r@ == self@,
    {
        Pattern::new(self.source())
    }
}

proof fn lemma_push_contains<A>(s: Seq<A>, last: A, x: A)
    ensures
        s.push(last).contains(x) <==> s.contains(x) || x == last,
{
    let t = s.push(last);
    if s.contains(x) {
        let i = choose|i: int| 0 <= i < s.len() && s[i] == x;
        assert(t[i] == x);
    }
    if x == last {
        assert(t[s.len() as int] == x);
    }
    if t.contains(x) {
        let i = choose|i: int| 0 <= i < t.len() && t[i] == x;
        if i < s.len() {
            assert(s[i] == x);
        }
    }
}

fn listed(names: &Vec<String>, name: &str) -> (r: bool)
    ensures
        r == names@.map_values(|name: String| name@).contains(name@),
{
    let ghost views = names@.map_values(|name: String| name@);
    let mut i: usize = 0;
    while i < names.len()
        invariant
            i <= names.len(),
            views == names@.map_values(|name: String| name@),
            forall|j: int| 0 <= j < i ==> #[trigger] views[j] != name@,
        decreases names.len() - i,
    {
        if text::same(names[i].as_str(), name) {
            assert(views[i as int] == name@);
            return true;
        }
        i += 1;
    }
    false
}

fn cut(chars: &Vec<char>, from: usize, part: &Vec<char>, bound: usize) -> (r: usize)
    requires
        from < chars.len(),
        0 < bound <= chars.len() - from,
    ensures
        r == cut_before(chars@.skip(from as int), part@, bound as int),
        0 < r <= bound,
{
    proof {
        text::lemma_find_skip(chars@, part@, from as int, 1);
    }
    match text::position(chars, part, from + 1) {
        Some(at) => if at - from < bound {
            at - from
        } else {
            bound
        },
        None => bound,
    }
}

fn tokens(pattern: &Vec<char>) -> (r: Vec<Token>)
    ensures
        crate::error::views(r@) == parts(pattern@),
{
    let star: Vec<char> = vec!['*'];
    let brace: Vec<char> = vec!['{'];
    let dollar: Vec<char> = vec!['$', '{'];
    let close: Vec<char> = vec!['}'];
    assert(star@ =~= seq!['*']);
    assert(brace@ =~= seq!['{']);
    assert(dollar@ =~= seq!['$', '{']);
    assert(close@ =~= seq!['}']);
    let mut out: Vec<Token> = Vec::new();
    let mut index: usize = 0;
    assert(pattern@.skip(0) =~= pattern@);
    assert(crate::error::views(out@) + parts(pattern@) =~= parts(pattern@));
    while index < pattern.len()
        invariant
            index <= pattern.len(),
            star@ == seq!['*'],
            brace@ == seq!['{'],
            dollar@ == seq!['$', '{'],
            close@ == seq!['}'],
            crate::error::views(out@) + parts(pattern@.skip(index as int)) == parts(pattern@),
        decreases pattern.len() - index,
    {
        let ghost tail = pattern@.skip(index as int);
        let ghost before = out@;
        if pattern[index] == '*' {
            out.push(Token::Wildcard);
            proof {
                lemma_step(before, out@.last(), tail, 1, parts(pattern@));
                assert(tail.skip(1) =~= pattern@.skip(index + 1));
            }
            index += 1;
            continue;
        }
        let offset: usize = if pattern[index] == '$' && index + 1 < pattern.len() && pattern[index
            + 1] == '{' {
            2
        } else if pattern[index] == '{' {
            1
        } else {
            0
        };
        assert(offset == capture_offset(tail));
        if offset != 0 {
            proof {
                text::lemma_find_skip(pattern@, close@, index as int, 0);
            }
            if let Some(end) = text::position(pattern, &close, index) {
                if end - index > offset {
                    let name = text::slice(pattern, index + offset, end);
                    assert(name@ =~= tail.subrange(offset as int, end - index));
                    out.push(Token::Capture(name));
                    proof {
                        lemma_step(before, out@.last(), tail, end - index + 1, parts(pattern@));
                        assert(tail.skip(end - index + 1) =~= pattern@.skip(end + 1));
                    }
                    index = end + 1;
                    continue;
                }
            }
        }
        let end: usize = cut(pattern, index, &star, pattern.len() - index);
        let end: usize = cut(pattern, index, &brace, end);
        let end: usize = cut(pattern, index, &dollar, end);
        assert(end == literal_end(tail));
        let literal = text::slice(pattern, index, index + end);
        assert(literal@ =~= tail.take(end as int));
        out.push(Token::Literal(literal));
        proof {
            lemma_step(before, out@.last(), tail, end as int, parts(pattern@));
            assert(tail.skip(end as int) =~= pattern@.skip(index + end));
        }
        index += end;
    }
    assert(crate::error::views(out@) + Seq::<TokenView>::empty() =~= crate::error::views(out@));
    out
}

proof fn lemma_step(
    before: Seq<Token>,
    token: Token,
    tail: Seq<char>,
    length: int,
    whole: Seq<TokenView>,
)
    requires
        crate::error::views(before) + parts(tail) == whole,
        parts(tail) == seq![token@] + parts(tail.skip(length)),
    ensures
        crate::error::views(before.push(token)) + parts(tail.skip(length)) == whole,
{
    assert(crate::error::views(before.push(token)) =~= crate::error::views(before).push(token@));
    assert(crate::error::views(before.push(token)) + parts(tail.skip(length))
        =~= crate::error::views(before) + (seq![token@] + parts(tail.skip(length))));
}

/// The pairs of a list of captures as character sequences.
spec fn pairs(captures: Seq<(String, String)>) -> Seq<(Seq<char>, Seq<char>)> {
    captures.map_values(|pair: (String, String)| (pair.0@, pair.1@))
}

fn match_tokens(tokens: &Vec<Token>, at: usize, value: &Vec<char>, from: usize) -> (r: Option<
    Vec<(String, String)>,
>)
    requires
        at <= tokens.len(),
        from <= value.len(),
    ensures
        match r {
            Some(captures) => matched(
                crate::error::views(tokens@).skip(at as int),
                value@.skip(from as int),
            ) == Some(pairs(captures@)),
            None => matched(
                crate::error::views(tokens@).skip(at as int),
                value@.skip(from as int),
            ) is None,
        },
    decreases tokens.len() - at,
{
    let ghost views = crate::error::views(tokens@).skip(at as int);
    let ghost rest = value@.skip(from as int);
    if at == tokens.len() {
        if from == value.len() {
            let empty: Vec<(String, String)> = Vec::new();
            assert(pairs(empty@) =~= Seq::empty());
            return Some(empty);
        } else {
            return None;
        }
    }
    let ghost more = crate::error::views(tokens@).skip(at + 1);
    assert(views.skip(1) =~= more);
    assert(views[0] == tokens@[at as int]@);
    match &tokens[at] {
        Token::Literal(literal) => {
            let chars = text::chars_of(literal.as_str());
            proof {
                if chars.len() <= value.len() - from {
                    assert(value@.subrange(from as int, from + chars.len()) =~= rest.subrange(
                        0,
                        chars.len() as int,
                    ));
                }
            }
            if text::stands_at(value, &chars, from) {
                assert(rest.skip(chars@.len() as int) =~= value@.skip(from + chars.len()));
                match_tokens(tokens, at + 1, value, from + chars.len())
            } else {
                None
            }
        },
        Token::Wildcard => {
            let mut index: usize = value.len();
            loop
                invariant
                    at < tokens.len(),
                    from <= index <= value.len(),
                    rest == value@.skip(from as int),
                    more == crate::error::views(tokens@).skip(at + 1),
                    longest(more, rest, rest.len() as int) == longest(more, rest, index - from),
                    matched(crate::error::views(tokens@).skip(at as int), value@.skip(from as int))
                        == longest(more, rest, rest.len() as int),
                decreases index,
            {
                assert(rest.skip(index - from) =~= value@.skip(index as int));
                let found = match_tokens(tokens, at + 1, value, index);
                if found.is_some() {
                    return found;
                }
                if index == from {
                    assert(longest(more, rest, -1) is None);
                    return None;
                }
                index -= 1;
            }
        },
        Token::Capture(name) => {
            if from == value.len() {
                return None;
            }
            let mut index: usize = from + 1;
            while index <= value.len()
                invariant
                    at < tokens.len(),
                    from < index <= value.len() + 1,
                    rest == value@.skip(from as int),
                    more == crate::error::views(tokens@).skip(at + 1),
                    shortest(more, name@, rest, 1) == shortest(more, name@, rest, index - from),
                    matched(crate::error::views(tokens@).skip(at as int), value@.skip(from as int))
                        == shortest(more, name@, rest, 1),
                decreases value.len() + 1 - index,
            {
                assert(rest.skip(index - from) =~= value@.skip(index as int));
                let found = match_tokens(tokens, at + 1, value, index);
                if let Some(found) = found {
                    let mut captures = found;
                    let ghost old_captures = captures@;
                    let piece = text::slice(value, from, index);
                    assert(piece@ =~= rest.take(index - from));
                    captures.insert(0, (name.clone(), piece));
                    assert(pairs(captures@) =~= seq![(name@, piece@)] + pairs(old_captures));
                    return Some(captures);
                }
                if index == value.len() {
                    assert(shortest(more, name@, rest, index - from + 1) is None);
                    return None;
                }
                index += 1;
            }
            None
        },
    }
}

fn collect(captures: Vec<(String, String)>) -> (r: Capture)
    ensures
        captured(r) == capture_map(pairs(captures@)),
{
    let mut out: Capture = Table::new();
    let mut i: usize = 0;
    let ghost all = pairs(captures@);
    assert(captured(out) =~= capture_map(all.take(0)));
    while i < captures.len()
        invariant
            i <= captures.len(),
            all == pairs(captures@),
            captured(out) == capture_map(all.take(i as int)),
        decreases captures.len() - i,
    {
        let ghost before = out@;
        out.insert(captures[i].0.clone(), captures[i].1.clone());
        proof {
            let upto = all.take(i + 1);
            assert(upto.drop_last() =~= all.take(i as int));
            assert(upto.last() == (captures@[i as int].0@, captures@[i as int].1@));
            assert(captured(out) =~= captured_map(before).insert(
                captures@[i as int].0@,
                captures@[i as int].1@,
            ));
        }
        i += 1;
    }
    assert(all.take(all.len() as int) =~= all);
    out
}

spec fn captured_map(map: Map<Seq<char>, String>) -> Map<Seq<char>, Seq<char>> {
    map.map_values(|value: String| value@)
}

} // verus!
