//! Text primitives shared by every module: white space, ordering, sorting,
//! decimal rendering and ASCII case folding over `Seq<char>`.

use vstd::prelude::*;
use vstd::relations::*;
use vstd::seq_lib::*;
use vstd::string::*;

verus! {

/// `String::push` appends one character.
pub assume_specification[ String::push ](s: &mut String, c: char)
    ensures
        final(s)@ == old(s)@.push(c),
;

/// `str::to_lowercase` maps text by the Unicode lowercase tables.
pub uninterp spec fn lowercased(s: Seq<char>) -> Seq<char>;

/// A text of ASCII characters.
pub open spec fn is_ascii_text(s: Seq<char>) -> bool {
    forall|i: int| 0 <= i < s.len() ==> (#[trigger] s[i]) as u32 <= 127
}

/// Calls `str::to_lowercase`; the result depends on the argument alone, and on ASCII text
/// it folds the capitals and leaves the rest, so that what it gives folds to itself.
#[verifier::external_body]
pub(crate) fn to_lowercase(s: &str) -> (r: String)
    ensures
        r@ == lowercased(s@),
        is_ascii_text(s@) ==> r@ == ascii_lower(s@),
        is_ascii_text(s@) ==> lowercased(r@) == r@,
{
    s.to_lowercase()
}

/// Whether a character is a letter or a digit, in any script.
pub uninterp spec fn alphanumeric(c: char) -> bool;

/// An ASCII letter or digit.
pub open spec fn ascii_alphanumeric(c: char) -> bool {
    48 <= c as u32 <= 57 || 65 <= c as u32 <= 90 || 97 <= c as u32 <= 122
}

/// Reports whether a character is a letter or a digit, in any script.
///
/// Calls `char::is_alphanumeric`. What it answers is fixed by the tables of the
/// Unicode Character Database and depends on the character alone; of the ASCII
/// characters exactly the letters and the digits qualify.
#[verifier::external_body]
pub(crate) fn is_alphanumeric(c: char) -> (r: bool)
    ensures
        r == alphanumeric(c),
        c as u32 <= 127 ==> r == ascii_alphanumeric(c),
{
    c.is_alphanumeric()
}

/// Characters are told apart by their code points.
pub proof fn lemma_char_code(a: char, b: char)
    ensures
        (a as u32 == b as u32) == (a == b),
        a as u32 <= 0x10ffff,
{
}

/// The views of a sequence of strings.
pub open spec fn views(s: Seq<String>) -> Seq<Seq<char>> {
    s.map_values(|x: String| x@)
}

/// The view of an optional string.
pub open spec fn opt_view(o: Option<String>) -> Option<Seq<char>> {
    match o {
        Some(s) => Some(s@),
        None => None,
    }
}

/// The Unicode `White_Space` property.
pub open spec fn is_white_space(c: char) -> bool {
    let n = c as u32;
    9 <= n <= 13 || n == 32 || n == 0x85 || n == 0xa0 || n == 0x1680 || 0x2000 <= n <= 0x200a || n
        == 0x2028 || n == 0x2029 || n == 0x202f || n == 0x205f || n == 0x3000
}

pub open spec fn trimmed_start(s: Seq<char>) -> Seq<char>
    decreases s.len(),
{
    if s.len() > 0 && is_white_space(s[0]) {
        trimmed_start(s.drop_first())
    } else {
        s
    }
}

pub open spec fn trimmed_end(s: Seq<char>) -> Seq<char>
    decreases s.len(),
{
    if s.len() > 0 && is_white_space(s.last()) {
        trimmed_end(s.drop_last())
    } else {
        s
    }
}

/// The text without leading and trailing white space.
pub open spec fn trimmed(s: Seq<char>) -> Seq<char> {
    trimmed_end(trimmed_start(s))
}

/// Every character is white space.
pub open spec fn is_blank(s: Seq<char>) -> bool {
    forall|i: int| 0 <= i < s.len() ==> is_white_space(#[trigger] s[i])
}

proof fn lemma_trimmed_start_blank(s: Seq<char>)
    ensures
        trimmed_start(s).len() == 0 <==> is_blank(s),
        trimmed_start(s).len() <= s.len(),
        trimmed_start(s) =~= s.subrange(s.len() - trimmed_start(s).len(), s.len() as int),
        trimmed_start(s).len() > 0 ==> !is_white_space(trimmed_start(s)[0]),
    decreases s.len(),
{
    if s.len() > 0 && is_white_space(s[0]) {
        lemma_trimmed_start_blank(s.drop_first());
        let rest = s.drop_first();
        if is_blank(rest) {
            assert forall|i: int| 0 <= i < s.len() implies is_white_space(#[trigger] s[i]) by {
                if i > 0 {
                    assert(rest[i - 1] == s[i]);
                }
            }
        } else {
            let i = choose|i: int| 0 <= i < rest.len() && !is_white_space(#[trigger] rest[i]);
            assert(s[i + 1] == rest[i]);
        }
    } else if s.len() > 0 {
        assert(!is_white_space(s[0]));
    }
}

proof fn lemma_trimmed_end_blank(s: Seq<char>)
    ensures
        trimmed_end(s).len() == 0 <==> is_blank(s),
        trimmed_end(s).len() <= s.len(),
        trimmed_end(s) =~= s.subrange(0, trimmed_end(s).len() as int),
    decreases s.len(),
{
    if s.len() > 0 && is_white_space(s.last()) {
        lemma_trimmed_end_blank(s.drop_last());
        let rest = s.drop_last();
        if is_blank(rest) {
            assert forall|i: int| 0 <= i < s.len() implies is_white_space(#[trigger] s[i]) by {
                if i < s.len() - 1 {
                    assert(rest[i] == s[i]);
                }
            }
        } else {
            let i = choose|i: int| 0 <= i < rest.len() && !is_white_space(#[trigger] rest[i]);
            assert(s[i] == rest[i]);
        }
    } else if s.len() > 0 {
        assert(!is_white_space(s[s.len() - 1]));
    }
}

proof fn lemma_trimmed_end_last(s: Seq<char>)
    ensures
        trimmed_end(s).len() > 0 ==> !is_white_space(trimmed_end(s).last()),
    decreases s.len(),
{
    if s.len() > 0 && is_white_space(s.last()) {
        lemma_trimmed_end_last(s.drop_last());
    }
}

/// Folding the capitals of a trimmed text leaves it trimmed.
pub proof fn lemma_folded_stays_trimmed(s: Seq<char>)
    ensures
        trimmed(ascii_lower(trimmed(s))) == ascii_lower(trimmed(s)),
        is_ascii_text(s) ==> is_ascii_text(trimmed(s)),
{
    let start = trimmed_start(s);
    let t = trimmed(s);
    let low = ascii_lower(t);
    lemma_trimmed_start_blank(s);
    lemma_trimmed_end_blank(start);
    lemma_trimmed_end_last(start);
    assert forall|c: char| is_white_space(#[trigger] ascii_lower_char(c)) == is_white_space(c) by {
    }
    if t.len() > 0 {
        assert(t[0] == start[0]);
        assert(low[0] == ascii_lower_char(t[0]));
        assert(low.last() == ascii_lower_char(t.last()));
        assert(trimmed_start(low) == low);
        assert(trimmed_end(low) == low);
    }
    if is_ascii_text(s) {
        let skipped = s.len() - start.len();
        assert forall|i: int| 0 <= i < t.len() implies (#[trigger] t[i]) as u32 <= 127 by {
            assert(t[i] == start[i]);
            assert(start[i] == s[skipped + i]);
        }
    }
}

/// A text trims to nothing exactly when it is blank.
pub proof fn lemma_trimmed_blank(s: Seq<char>)
    ensures
        trimmed(s).len() == 0 <==> is_blank(s),
{
    lemma_trimmed_start_blank(s);
    lemma_trimmed_end_blank(trimmed_start(s));
    let t = trimmed_start(s);
    if t.len() > 0 {
        assert(!is_white_space(t[0]));
        assert(!is_blank(t));
    }
}

pub fn white_space(c: char) -> (r: bool)
    ensures
        r == is_white_space(c),
{
    let n: u32 = c as u32;
    (9 <= n && n <= 13) || n == 32 || n == 0x85 || n == 0xa0 || n == 0x1680 || (0x2000 <= n && n
        <= 0x200a) || n == 0x2028 || n == 0x2029 || n == 0x202f || n == 0x205f || n == 0x3000
}

/// The characters of a text.
pub fn chars_of(s: &str) -> (r: Vec<char>)
    ensures
        r@ == s@,
{
    let mut out: Vec<char> = Vec::new();
    for c in it: s.chars()
        invariant
            out@ =~= it.seq().take(it.index()),
            it.seq() == s@,
    {
        out.push(c);
    }
    assert(s@.take(s@.len() as int) =~= s@);
    out
}

/// The text made of `chars[from..to]`.
pub fn string_of(chars: &Vec<char>, from: usize, to: usize) -> (r: String)
    requires
        from <= to <= chars@.len(),
    ensures
        r@ == chars@.subrange(from as int, to as int),
{
    let mut out = String::new();
    let mut i: usize = from;
    while i < to
        invariant
            from <= i <= to <= chars@.len(),
            out@ =~= chars@.subrange(from as int, i as int),
        decreases to - i,
    {
        out.push(chars[i]);
        i = i + 1;
    }
    out
}

/// Removes leading and trailing white space.
pub fn trim(s: &str) -> (r: String)
    ensures
        r@ == trimmed(s@),
{
    let chars = chars_of(s);
    let mut from: usize = 0;
    proof {
        assert(chars@.subrange(0, chars@.len() as int) =~= chars@);
    }
    while from < chars.len() && white_space(chars[from])
        invariant
            from <= chars@.len(),
            trimmed_start(chars@.subrange(from as int, chars@.len() as int)) == trimmed_start(chars@),
        decreases chars@.len() - from,
    {
        proof {
            let rest = chars@.subrange(from as int, chars@.len() as int);
            assert(rest.drop_first() =~= chars@.subrange(from + 1, chars@.len() as int));
        }
        from = from + 1;
    }
    let mut to: usize = chars.len();
    let ghost start = chars@.subrange(from as int, chars@.len() as int);
    assert(trimmed_start(chars@) == start);
    while to > from && white_space(chars[to - 1])
        invariant
            from <= to <= chars@.len(),
            trimmed_end(chars@.subrange(from as int, to as int)) == trimmed_end(start),
        decreases to,
    {
        proof {
            let rest = chars@.subrange(from as int, to as int);
            assert(rest.last() == chars@[to - 1]);
            assert(rest.drop_last() =~= chars@.subrange(from as int, to - 1));
        }
        to = to - 1;
    }
    string_of(&chars, from, to)
}

/// Reports whether the text holds white space only.
pub fn blank(s: &str) -> (r: bool)
    ensures
        r == is_blank(s@),
        r == (trimmed(s@).len() == 0),
{
    proof {
        lemma_trimmed_blank(s@);
    }
    let chars = chars_of(s);
    let mut i: usize = 0;
    while i < chars.len()
        invariant
            i <= chars@.len(),
            chars@ == s@,
            is_blank(s@) == (trimmed(s@).len() == 0),
            forall|j: int| 0 <= j < i ==> is_white_space(#[trigger] s@[j]),
        decreases chars@.len() - i,
    {
        if !white_space(chars[i]) {
            assert(!is_white_space(s@[i as int]));
            return false;
        }
        i = i + 1;
    }
    true
}

/// Compares two texts.
pub fn same(a: &str, b: &str) -> (r: bool)
    ensures
        r == (a@ == b@),
{
    a.to_owned() == b.to_owned()
}

/// Compares two optional texts.
pub fn same_opt(a: &Option<String>, b: &Option<String>) -> (r: bool)
    ensures
        r == (opt_view(*a) == opt_view(*b)),
{
    match (a, b) {
        (Some(x), Some(y)) => same(x, y),
        (None, None) => true,
        _ => false,
    }
}

/// Reports whether an optional text is present and equal to `b`.
pub fn is_text(a: &Option<String>, b: &str) -> (r: bool)
    ensures
        r == (opt_view(*a) == Some(b@)),
{
    match a {
        Some(x) => same(x, b),
        None => false,
    }
}

pub fn clone_opt(a: &Option<String>) -> (r: Option<String>)
    ensures
        r == *a,
{
    match a {
        Some(x) => Some(x.clone()),
        None => None,
    }
}

pub fn clone_strings(v: &Vec<String>) -> (r: Vec<String>)
    ensures
        r@ == v@,
{
    let mut out: Vec<String> = Vec::new();
    let mut i: usize = 0;
    while i < v.len()
        invariant
            i <= v@.len(),
            out@ =~= v@.take(i as int),
        decreases v@.len() - i,
    {
        out.push(v[i].clone());
        i = i + 1;
    }
    assert(v@.take(v@.len() as int) =~= v@);
    out
}

/// Reports whether `needle` is one of the texts.
pub fn contains_text(v: &Vec<String>, needle: &str) -> (r: bool)
    ensures
        r == views(v@).contains(needle@),
{
    let mut i: usize = 0;
    while i < v.len()
        invariant
            i <= v@.len(),
            forall|j: int| 0 <= j < i ==> #[trigger] views(v@)[j] != needle@,
        decreases v@.len() - i,
    {
        if same(&v[i], needle) {
            assert(views(v@)[i as int] == needle@);
            return true;
        }
        i = i + 1;
    }
    false
}

/// Lexicographic order by code point, which is also the byte order of UTF-8.
pub open spec fn lex_le(a: Seq<char>, b: Seq<char>) -> bool
    decreases a.len(),
{
    if a.len() == 0 {
        true
    } else if b.len() == 0 {
        false
    } else if a[0] == b[0] {
        lex_le(a.drop_first(), b.drop_first())
    } else {
        (a[0] as u32) < (b[0] as u32)
    }
}

/// [`lex_le`] as a relation.
pub open spec fn lex_order() -> spec_fn(Seq<char>, Seq<char>) -> bool {
    |a: Seq<char>, b: Seq<char>| lex_le(a, b)
}

proof fn lemma_lex_reflexive(a: Seq<char>)
    ensures
        lex_le(a, a),
    decreases a.len(),
{
    if a.len() > 0 {
        lemma_lex_reflexive(a.drop_first());
    }
}

proof fn lemma_lex_antisymmetric(a: Seq<char>, b: Seq<char>)
    requires
        lex_le(a, b),
        lex_le(b, a),
    ensures
        a == b,
    decreases a.len(),
{
    if a.len() > 0 && b.len() > 0 {
        if a[0] == b[0] {
            lemma_lex_antisymmetric(a.drop_first(), b.drop_first());
            assert(a =~= seq![a[0]] + a.drop_first());
            assert(b =~= seq![b[0]] + b.drop_first());
        }
    } else {
        assert(a =~= b);
    }
}

proof fn lemma_lex_transitive(a: Seq<char>, b: Seq<char>, c: Seq<char>)
    requires
        lex_le(a, b),
        lex_le(b, c),
    ensures
        lex_le(a, c),
    decreases a.len(),
{
    if a.len() > 0 && b.len() > 0 && c.len() > 0 && a[0] == b[0] && b[0] == c[0] {
        lemma_lex_transitive(a.drop_first(), b.drop_first(), c.drop_first());
    }
}

proof fn lemma_lex_total(a: Seq<char>, b: Seq<char>)
    ensures
        lex_le(a, b) || lex_le(b, a),
    decreases a.len(),
{
    if a.len() > 0 && b.len() > 0 {
        if a[0] == b[0] {
            lemma_lex_total(a.drop_first(), b.drop_first());
        } else {
            lemma_char_code(a[0], b[0]);
        }
    }
}

/// Texts are totally ordered by [`lex_le`].
pub proof fn lemma_lex_total_ordering()
    ensures
        total_ordering(lex_order()),
{
    let leq = lex_order();
    assert forall|a: Seq<char>| #[trigger] leq(a, a) by {
        lemma_lex_reflexive(a);
    }
    assert forall|a: Seq<char>, b: Seq<char>| #[trigger] leq(a, b) && #[trigger] leq(b, a) implies a
        == b by {
        lemma_lex_antisymmetric(a, b);
    }
    assert forall|a: Seq<char>, b: Seq<char>, c: Seq<char>| #[trigger]
        leq(a, b) && #[trigger] leq(b, c) implies leq(a, c) by {
        lemma_lex_transitive(a, b, c);
    }
    assert forall|a: Seq<char>, b: Seq<char>| #[trigger] leq(a, b) || #[trigger] leq(b, a) by {
        lemma_lex_total(a, b);
    }
}

pub fn text_le(a: &str, b: &str) -> (r: bool)
    ensures
        r == lex_le(a@, b@),
{
    let x = chars_of(a);
    let y = chars_of(b);
    let mut i: usize = 0;
    proof {
        assert(x@.skip(0) =~= x@);
        assert(y@.skip(0) =~= y@);
    }
    while i < x.len() && i < y.len()
        invariant
            i <= x@.len(),
            i <= y@.len(),
            x@ == a@,
            y@ == b@,
            lex_le(a@, b@) == lex_le(x@.skip(i as int), y@.skip(i as int)),
        decreases x@.len() - i,
    {
        let p: u32 = x[i] as u32;
        let q: u32 = y[i] as u32;
        if p != q {
            assert(x@.skip(i as int)[0] == x@[i as int]);
            assert(y@.skip(i as int)[0] == y@[i as int]);
            return p < q;
        }
        proof {
            lemma_char_code(x@[i as int], y@[i as int]);
            assert(x@.skip(i as int).drop_first() =~= x@.skip(i + 1));
            assert(y@.skip(i as int).drop_first() =~= y@.skip(i + 1));
        }
        i = i + 1;
    }
    i == x.len()
}

/// The texts in ascending order.
pub open spec fn sorted_texts(s: Seq<Seq<char>>) -> Seq<Seq<char>> {
    s.sort_by(lex_order())
}

/// Two arrangements of the same texts sort to the same sequence.
pub proof fn lemma_sort_ignores_arrangement(a: Seq<Seq<char>>, b: Seq<Seq<char>>)
    requires
        a.to_multiset() == b.to_multiset(),
    ensures
        sorted_texts(a) == sorted_texts(b),
{
    lemma_lex_total_ordering();
    a.lemma_sort_by_ensures(lex_order());
    b.lemma_sort_by_ensures(lex_order());
    lemma_sorted_unique(sorted_texts(a), sorted_texts(b), lex_order());
}

pub proof fn lemma_insert_multiset<A>(s: Seq<A>, i: int, x: A)
    requires
        0 <= i <= s.len(),
    ensures
        s.insert(i, x).to_multiset() == s.to_multiset().insert(x),
{
    broadcast use vstd::seq_lib::group_to_multiset_ensures;

    let a = s.subrange(0, i);
    let b = s.subrange(i, s.len() as int);
    assert(s =~= a + b);
    assert(s.insert(i, x) =~= a.push(x) + b);
    vstd::seq_lib::lemma_multiset_commutative(a, b);
    vstd::seq_lib::lemma_multiset_commutative(a.push(x), b);
    assert(a.push(x).to_multiset() =~= a.to_multiset().insert(x));
    assert((a.push(x) + b).to_multiset() =~= s.to_multiset().insert(x));
}

/// Sorts texts in ascending order.
pub fn sort_strings(v: Vec<String>) -> (r: Vec<String>)
    ensures
        views(r@) == sorted_texts(views(v@)),
        r@.len() == v@.len(),
{
    let mut out: Vec<String> = Vec::new();
    let mut i: usize = 0;
    proof {
        assert(views(out@) =~= views(v@).take(0));
    }
    while i < v.len()
        invariant
            i <= v@.len(),
            out@.len() == i,
            sorted_by(views(out@), lex_order()),
            views(out@).to_multiset() == views(v@).take(i as int).to_multiset(),
        decreases v@.len() - i,
    {
        let item = v[i].clone();
        let mut at: usize = 0;
        while at < out.len() && text_le(&out[at], &item)
            invariant
                at <= out@.len(),
                forall|j: int| 0 <= j < at ==> lex_le(#[trigger] views(out@)[j], item@),
            decreases out@.len() - at,
        {
            assert(views(out@)[at as int] == out@[at as int]@);
            at = at + 1;
        }
        let ghost before = views(out@);
        out.insert(at, item);
        proof {
            let leq = lex_order();
            let x = v@[i as int]@;
            lemma_lex_total_ordering();
            assert(views(out@) =~= before.insert(at as int, x));
            if at < before.len() {
                lemma_lex_total(before[at as int], x);
            }
            assert forall|p: int, q: int| 0 <= p < q < views(out@).len() implies #[trigger] leq(
                views(out@)[p],
                views(out@)[q],
            ) by {
                let after = views(out@);
                if q == at {
                    assert(after[p] == before[p]);
                } else if p == at {
                    assert(after[q] == before[q - 1]);
                    if q - 1 > at {
                        assert(leq(before[at as int], before[q - 1]));
                        lemma_lex_transitive(x, before[at as int], before[q - 1]);
                    }
                } else {
                    let pp = if p < at { p } else { p - 1 };
                    let qq = if q < at { q } else { q - 1 };
                    assert(after[p] == before[pp]);
                    assert(after[q] == before[qq]);
                    assert(leq(before[pp], before[qq]));
                }
            }
            lemma_insert_multiset(before, at as int, x);
            assert(views(v@).take(i + 1) =~= views(v@).take(i as int).push(views(v@)[i as int]));
            broadcast use vstd::seq_lib::group_to_multiset_ensures;

        }
        i = i + 1;
    }
    proof {
        assert(views(v@).take(v@.len() as int) =~= views(v@));
        lemma_lex_total_ordering();
        views(v@).lemma_sort_by_ensures(lex_order());
        lemma_sorted_unique(views(out@), sorted_texts(views(v@)), lex_order());
    }
    out
}

/// The decimal digit `d`.
pub open spec fn digit(d: nat) -> char {
    if d == 0 {
        '0'
    } else if d == 1 {
        '1'
    } else if d == 2 {
        '2'
    } else if d == 3 {
        '3'
    } else if d == 4 {
        '4'
    } else if d == 5 {
        '5'
    } else if d == 6 {
        '6'
    } else if d == 7 {
        '7'
    } else if d == 8 {
        '8'
    } else {
        '9'
    }
}

/// A natural number in decimal.
pub open spec fn decimal(n: nat) -> Seq<char>
    decreases n,
{
    if n < 10 {
        seq![digit(n)]
    } else {
        decimal(n / 10).push(digit(n % 10))
    }
}

/// An integer in decimal, with a leading minus sign where it is negative.
pub open spec fn signed_decimal(n: int) -> Seq<char> {
    if n < 0 {
        seq!['-'] + decimal((-n) as nat)
    } else {
        decimal(n as nat)
    }
}

fn digit_char(d: u64) -> (r: char)
    requires
        d < 10,
    ensures
        r == digit(d as nat),
{
    if d == 0 {
        '0'
    } else if d == 1 {
        '1'
    } else if d == 2 {
        '2'
    } else if d == 3 {
        '3'
    } else if d == 4 {
        '4'
    } else if d == 5 {
        '5'
    } else if d == 6 {
        '6'
    } else if d == 7 {
        '7'
    } else if d == 8 {
        '8'
    } else {
        '9'
    }
}

pub fn render_u64(n: u64) -> (r: String)
    ensures
        r@ == decimal(n as nat),
    decreases n,
{
    let mut out = if n < 10 {
        String::new()
    } else {
        render_u64(n / 10)
    };
    out.push(digit_char(n % 10));
    assert(n < 10 ==> out@ =~= seq![digit(n as nat)]);
    out
}

pub fn render_i64(n: i64) -> (r: String)
    ensures
        r@ == signed_decimal(n as int),
{
    if n < 0 {
        let magnitude: u64 = (-(n as i128)) as u64;
        let mut out = "-".to_owned();
        proof {
            reveal_strlit("-");
            assert(out@ =~= seq!['-']);
        }
        let digits = render_u64(magnitude);
        out.append(&digits);
        out
    } else {
        render_u64(n as u64)
    }
}

/// One ASCII capital folded to its small letter; other characters unchanged.
pub open spec fn ascii_lower_char(c: char) -> char {
    if 65 <= c as u32 <= 90 {
        ((c as u32 + 32) as u8) as char
    } else {
        c
    }
}

/// A text with its ASCII capitals folded.
pub open spec fn ascii_lower(s: Seq<char>) -> Seq<char> {
    s.map_values(|c: char| ascii_lower_char(c))
}

pub fn to_ascii_lower(s: &str) -> (r: String)
    ensures
        r@ == ascii_lower(s@),
{
    let chars = chars_of(s);
    let mut out = String::new();
    let mut i: usize = 0;
    while i < chars.len()
        invariant
            i <= chars@.len(),
            chars@ == s@,
            out@ =~= ascii_lower(s@).take(i as int),
        decreases chars@.len() - i,
    {
        let c: char = chars[i];
        let n: u32 = c as u32;
        if 65 <= n && n <= 90 {
            out.push(((n + 32) as u8) as char);
        } else {
            out.push(c);
        }
        i = i + 1;
    }
    assert(ascii_lower(s@).take(s@.len() as int) =~= ascii_lower(s@));
    out
}

/// `part` occurs in `s` at `at`.
pub open spec fn occurs_at(s: Seq<char>, part: Seq<char>, at: int) -> bool {
    0 <= at && at + part.len() <= s.len() && s.subrange(at, at + part.len()) == part
}

/// `part` occurs somewhere in `s`.
pub open spec fn occurs(s: Seq<char>, part: Seq<char>) -> bool {
    exists|at: int| #[trigger] occurs_at(s, part, at)
}

/// Reports whether `part` stands at position `at` of `s`.
pub fn stands_at(s: &Vec<char>, part: &Vec<char>, at: usize) -> (r: bool)
    ensures
        r == occurs_at(s@, part@, at as int),
{
    if part.len() > s.len() || at > s.len() - part.len() {
        return false;
    }
    let mut i: usize = 0;
    while i < part.len()
        invariant
            i <= part@.len(),
            at + part@.len() <= s@.len() <= usize::MAX,
            s@.subrange(at as int, at + i) =~= part@.take(i as int),
        decreases part@.len() - i,
    {
        if s[at + i] != part[i] {
            assert(s@.subrange(at as int, at + part@.len())[i as int] != part@[i as int]);
            return false;
        }
        i = i + 1;
    }
    assert(part@.take(part@.len() as int) =~= part@);
    true
}

/// Reports whether `part` occurs in `s`.
pub fn contains_part(s: &str, part: &str) -> (r: bool)
    ensures
        r == occurs(s@, part@),
{
    let chars = chars_of(s);
    let wanted = chars_of(part);
    let mut at: usize = 0;
    while at < chars.len()
        invariant
            at <= chars@.len(),
            chars@ == s@,
            wanted@ == part@,
            forall|j: int| 0 <= j < at ==> !occurs_at(s@, part@, j),
        decreases chars@.len() - at,
    {
        if stands_at(&chars, &wanted, at) {
            return true;
        }
        at = at + 1;
    }
    stands_at(&chars, &wanted, at)
}

/// Concatenates two texts.
pub fn join2(a: &str, b: &str) -> (r: String)
    ensures
        r@ == a@ + b@,
{
    let mut out = a.to_owned();
    out.append(b);
    out
}

/// Concatenates three texts.
pub fn join3(a: &str, b: &str, c: &str) -> (r: String)
    ensures
        r@ == a@ + b@ + c@,
{
    let mut out = a.to_owned();
    out.append(b);
    out.append(c);
    out
}

/// The texts with `separator` between neighbours.
pub open spec fn joined(parts: Seq<Seq<char>>, separator: Seq<char>) -> Seq<char>
    decreases parts.len(),
{
    if parts.len() == 0 {
        Seq::empty()
    } else if parts.len() == 1 {
        parts[0]
    } else {
        joined(parts.drop_last(), separator) + separator + parts.last()
    }
}

/// Joins the texts with `separator`.
pub fn join(parts: &Vec<String>, separator: &str) -> (r: String)
    ensures
        r@ == joined(views(parts@), separator@),
{
    let mut out = String::new();
    let mut i: usize = 0;
    proof {
        assert(views(parts@).take(0).len() == 0);
    }
    while i < parts.len()
        invariant
            i <= parts@.len(),
            out@ == joined(views(parts@).take(i as int), separator@),
        decreases parts@.len() - i,
    {
        if i > 0 {
            out.append(separator);
        }
        out.append(&parts[i]);
        proof {
            let next = views(parts@).take(i + 1);
            assert(next.drop_last() =~= views(parts@).take(i as int));
            assert(next.last() == parts@[i as int]@);
            assert(i == 0 ==> out@ =~= next[0]);
        }
        i = i + 1;
    }
    assert(views(parts@).take(parts@.len() as int) =~= views(parts@));
    out
}

/// The position of the first `c` at or after `from`.
pub open spec fn char_at_or_after(s: Seq<char>, c: char, from: int) -> Option<int>
    decreases s.len() - from,
{
    if from < 0 || from >= s.len() {
        None
    } else if s[from] == c {
        Some(from)
    } else {
        char_at_or_after(s, c, from + 1)
    }
}

/// Finds the first `c` in a text.
pub fn find_char(s: &Vec<char>, c: char) -> (r: Option<usize>)
    ensures
        match r {
            Some(i) => i < s@.len() && char_at_or_after(s@, c, 0) == Some(i as int),
            None => char_at_or_after(s@, c, 0) is None,
        },
{
    let mut i: usize = 0;
    while i < s.len()
        invariant
            i <= s@.len(),
            char_at_or_after(s@, c, 0) == char_at_or_after(s@, c, i as int),
        decreases s@.len() - i,
    {
        if s[i] == c {
            return Some(i);
        }
        i = i + 1;
    }
    None
}

/// The runs of characters other than `separator`: those that are closed by a
/// separator, and the one that is still open.
pub open spec fn runs(s: Seq<char>, separator: char) -> (Seq<Seq<char>>, Seq<char>)
    decreases s.len(),
{
    if s.len() == 0 {
        (Seq::empty(), Seq::empty())
    } else {
        let (done, open) = runs(s.drop_last(), separator);
        if s.last() == separator {
            (with_run(done, open), Seq::empty())
        } else {
            (done, open.push(s.last()))
        }
    }
}

/// The runs with one more, where it is not empty.
pub open spec fn with_run(done: Seq<Seq<char>>, open: Seq<char>) -> Seq<Seq<char>> {
    if open.len() == 0 {
        done
    } else {
        done.push(open)
    }
}

/// The non-empty pieces of a text between separators.
pub open spec fn pieces(s: Seq<char>, separator: char) -> Seq<Seq<char>> {
    with_run(runs(s, separator).0, runs(s, separator).1)
}

/// Splits a text at a separator and drops empty pieces.
pub fn split_pieces(s: &Vec<char>, separator: char) -> (r: Vec<String>)
    ensures
        views(r@) == pieces(s@, separator),
{
    let mut done: Vec<String> = Vec::new();
    let mut open = String::new();
    let mut i: usize = 0;
    proof {
        assert(s@.take(0).len() == 0);
        assert(views(done@) =~= Seq::empty());
    }
    while i < s.len()
        invariant
            i <= s@.len(),
            views(done@) == runs(s@.take(i as int), separator).0,
            open@ == runs(s@.take(i as int), separator).1,
        decreases s@.len() - i,
    {
        let ghost before = views(done@);
        let ghost run = open@;
        proof {
            assert(s@.take(i + 1).drop_last() =~= s@.take(i as int));
            assert(s@.take(i + 1).last() == s@[i as int]);
        }
        if s[i] == separator {
            if !open.as_str().is_empty() {
                done.push(open);
                assert(views(done@) =~= before.push(run));
            }
            open = String::new();
        } else {
            open.push(s[i]);
        }
        i = i + 1;
    }
    assert(s@.take(s@.len() as int) =~= s@);
    let ghost before = views(done@);
    let ghost run = open@;
    if !open.as_str().is_empty() {
        done.push(open);
        assert(views(done@) =~= before.push(run));
    }
    done
}

proof fn lemma_runs_of_word(s: Seq<char>, word: Seq<char>, separator: char)
    requires
        !word.contains(separator),
    ensures
        runs(s + word, separator) == (runs(s, separator).0, runs(s, separator).1 + word),
    decreases word.len(),
{
    if word.len() == 0 {
        assert(s + word =~= s);
        assert(runs(s, separator).1 + word =~= runs(s, separator).1);
    } else {
        let init = word.drop_last();
        assert(!init.contains(separator)) by {
            if init.contains(separator) {
                let i = choose|i: int| 0 <= i < init.len() && init[i] == separator;
                assert(word[i] == separator);
            }
        }
        lemma_runs_of_word(s, init, separator);
        assert((s + word).drop_last() =~= s + init);
        assert((s + word).last() == word.last());
        assert(word[word.len() - 1] != separator);
        assert((runs(s, separator).1 + init).push(word.last()) =~= runs(s, separator).1 + word);
    }
}

/// Joining non-empty words that do not hold the separator and splitting the result
/// gives the words back.
pub proof fn lemma_split_of_joined(words: Seq<Seq<char>>, separator: char)
    requires
        forall|i: int|
            0 <= i < words.len() ==> (#[trigger] words[i]).len() > 0 && !words[i].contains(
                separator,
            ),
    ensures
        pieces(joined(words, seq![separator]), separator) == words,
        words.len() > 0 ==> runs(joined(words, seq![separator]), separator) == (
            words.drop_last(),
            words.last(),
        ),
    decreases words.len(),
{
    let all = joined(words, seq![separator]);
    if words.len() == 0 {
        assert(all =~= Seq::empty());
        assert(pieces(all, separator) =~= words);
    } else if words.len() == 1 {
        lemma_runs_of_word(Seq::empty(), words[0], separator);
        assert(Seq::<char>::empty() + words[0] =~= words[0]);
        assert(words.drop_last() =~= Seq::empty());
        assert(Seq::<Seq<char>>::empty().push(words[0]) =~= words);
    } else {
        let init = words.drop_last();
        let head = joined(init, seq![separator]);
        assert forall|i: int| 0 <= i < init.len() implies (#[trigger] init[i]).len() > 0
            && !init[i].contains(separator) by {
            assert(init[i] == words[i]);
        }
        lemma_split_of_joined(init, separator);
        let mid = head + seq![separator];
        assert(mid.drop_last() =~= head);
        assert(init.last().len() > 0);
        assert(runs(mid, separator) == (init.drop_last().push(init.last()), Seq::<char>::empty()));
        assert(init.drop_last().push(init.last()) =~= init);
        lemma_runs_of_word(mid, words.last(), separator);
        assert(Seq::<char>::empty() + words.last() =~= words.last());
        assert(words.last() == words[words.len() - 1]);
        assert(init.push(words.last()) =~= words);
    }
}

/// The length of a text in UTF-8 bytes.
pub open spec fn utf8_len(s: Seq<char>) -> nat {
    vstd::utf8::encode_utf8(s).len()
}

/// The length of one character in UTF-8 bytes.
pub open spec fn char_width(c: char) -> nat {
    if c as u32 <= 0x7f {
        1
    } else if c as u32 <= 0x7ff {
        2
    } else if c as u32 <= 0xffff {
        3
    } else {
        4
    }
}

/// The length of a text is the length of its first character and of the rest.
pub proof fn lemma_utf8_len_first(s: Seq<char>)
    requires
        s.len() > 0,
    ensures
        utf8_len(s) == char_width(s[0]) + utf8_len(s.drop_first()),
{
    vstd::utf8::char_is_scalar(s[0]);
}

/// The empty text has length zero.
pub proof fn lemma_utf8_len_empty()
    ensures
        utf8_len(Seq::empty()) == 0,
{
}

/// The length of two texts in a row is the sum of their lengths.
pub proof fn lemma_utf8_len_concat(a: Seq<char>, b: Seq<char>)
    ensures
        utf8_len(a + b) == utf8_len(a) + utf8_len(b),
    decreases a.len(),
{
    if a.len() == 0 {
        assert(a + b =~= b);
        assert(a =~= Seq::empty());
        lemma_utf8_len_empty();
    } else {
        lemma_utf8_len_first(a);
        lemma_utf8_len_first(a + b);
        assert((a + b).drop_first() =~= a.drop_first() + b);
        lemma_utf8_len_concat(a.drop_first(), b);
    }
}

/// The length of a text in UTF-8 bytes.
pub fn byte_len(s: &str) -> (r: usize)
    ensures
        r == utf8_len(s@),
{
    s.as_bytes().len()
}

/// The longest prefix of a text that takes at most `max` bytes.
pub open spec fn fitting_prefix(s: Seq<char>, max: nat) -> Seq<char>
    decreases s.len(),
{
    if s.len() == 0 || char_width(s[0]) > max {
        Seq::empty()
    } else {
        seq![s[0]] + fitting_prefix(s.drop_first(), (max - char_width(s[0])) as nat)
    }
}

/// The longest prefix fits, is a prefix, and one more character would not fit; a
/// text that fits is kept whole.
pub proof fn law_fitting_prefix(s: Seq<char>, max: nat)
    ensures
        fitting_prefix(s, max).len() <= s.len(),
        fitting_prefix(s, max) == s.take(fitting_prefix(s, max).len() as int),
        utf8_len(fitting_prefix(s, max)) <= max,
        fitting_prefix(s, max).len() < s.len() ==> utf8_len(
            s.take(fitting_prefix(s, max).len() as int + 1),
        ) > max,
        utf8_len(s) <= max ==> fitting_prefix(s, max) == s,
    decreases s.len(),
{
    let p = fitting_prefix(s, max);
    if s.len() > 0 {
        lemma_utf8_len_first(s);
        let rest = s.drop_first();
        if char_width(s[0]) > max {
            let one = s.take(1);
            lemma_utf8_len_first(one);
            assert(one[0] == s[0]);
        } else {
            let left = (max - char_width(s[0])) as nat;
            law_fitting_prefix(rest, left);
            let q = fitting_prefix(rest, left);
            assert(p =~= s.take(q.len() as int + 1));
            lemma_utf8_len_first(p);
            assert(p.drop_first() =~= q);
            if p.len() < s.len() {
                let next = s.take(p.len() as int + 1);
                lemma_utf8_len_first(next);
                assert(next.drop_first() =~= rest.take(q.len() as int + 1));
            }
            if utf8_len(s) <= max {
                assert(seq![s[0]] + rest =~= s);
            }
        }
    } else {
        assert(s =~= Seq::empty());
        assert(s.take(0) =~= Seq::empty());
        lemma_utf8_len_empty();
    }
}

fn width_of(c: char) -> (r: usize)
    ensures
        r == char_width(c),
{
    let n: u32 = c as u32;
    if n <= 0x7f {
        1
    } else if n <= 0x7ff {
        2
    } else if n <= 0xffff {
        3
    } else {
        4
    }
}

/// Cuts a text to at most `max` bytes, between characters.
pub fn truncate_to_bytes(s: &str, max: usize) -> (r: String)
    ensures
        r@ == fitting_prefix(s@, max as nat),
{
    let chars = chars_of(s);
    let mut left: usize = max;
    let mut i: usize = 0;
    let mut out = String::new();
    proof {
        assert(s@.skip(0) =~= s@);
        assert(out@ + fitting_prefix(s@, max as nat) =~= fitting_prefix(s@, max as nat));
    }
    while i < chars.len()
        invariant
            i <= chars@.len(),
            chars@ == s@,
            out@ + fitting_prefix(s@.skip(i as int), left as nat) == fitting_prefix(s@, max as nat),
        decreases chars@.len() - i,
    {
        let width = width_of(chars[i]);
        assert(s@.skip(i as int)[0] == s@[i as int]);
        if width > left {
            assert(out@ + Seq::<char>::empty() =~= out@);
            return out;
        }
        let ghost before = out@;
        out.push(chars[i]);
        left = left - width;
        proof {
            assert(s@.skip(i as int).drop_first() =~= s@.skip(i + 1));
            assert(out@ + fitting_prefix(s@.skip(i + 1), left as nat) =~= before + fitting_prefix(
                s@.skip(i as int),
                (left + width) as nat,
            ));
        }
        i = i + 1;
    }
    assert(out@ + Seq::<char>::empty() =~= out@);
    out
}

/// Renders an unsigned number in decimal.
pub fn render_u128(n: u128) -> (r: String)
    ensures
        r@ == decimal(n as nat),
    decreases n,
{
    let mut out = if n < 10 {
        String::new()
    } else {
        render_u128(n / 10)
    };
    out.push(digit_char((n % 10) as u64));
    assert(n < 10 ==> out@ =~= seq![digit(n as nat)]);
    out
}

/// Compares two lists of texts.
pub fn same_texts(a: &Vec<String>, b: &Vec<String>) -> (r: bool)
    ensures
        r == (views(a@) == views(b@)),
{
    assert(views(a@).len() == a@.len());
    assert(views(b@).len() == b@.len());
    if a.len() != b.len() {
        return false;
    }
    let mut i: usize = 0;
    while i < a.len()
        invariant
            i <= a@.len(),
            a@.len() == b@.len(),
            forall|j: int| 0 <= j < i ==> #[trigger] views(a@)[j] == views(b@)[j],
        decreases a@.len() - i,
    {
        proof {
            assert(views(a@)[i as int] == a@[i as int]@);
            assert(views(b@)[i as int] == b@[i as int]@);
        }
        if !same(&a[i], &b[i]) {
            return false;
        }
        i = i + 1;
    }
    assert(views(a@) =~= views(b@));
    true
}

/// A sequence without the items that equal their left neighbour.
pub open spec fn without_repeats(s: Seq<Seq<char>>) -> Seq<Seq<char>>
    decreases s.len(),
{
    if s.len() <= 1 {
        s
    } else if s[s.len() - 2] == s.last() {
        without_repeats(s.drop_last())
    } else {
        without_repeats(s.drop_last()).push(s.last())
    }
}

/// Drops the texts that equal their left neighbour.
pub fn dedup(sorted: Vec<String>) -> (r: Vec<String>)
    ensures
        views(r@) == without_repeats(views(sorted@)),
{
    let ghost ordered = views(sorted@);
    let mut out: Vec<String> = Vec::new();
    let mut k: usize = 0;
    proof {
        assert(ordered.take(0).len() == 0);
        assert(views(out@) =~= without_repeats(ordered.take(0)));
    }
    while k < sorted.len()
        invariant
            k <= sorted@.len(),
            ordered == views(sorted@),
            views(out@) == without_repeats(ordered.take(k as int)),
        decreases sorted@.len() - k,
    {
        let ghost before = views(out@);
        proof {
            let next = ordered.take(k + 1);
            assert(next.drop_last() =~= ordered.take(k as int));
            assert(next.last() == sorted@[k as int]@);
            if k > 0 {
                assert(next[next.len() - 2] == sorted@[k - 1]@);
            } else {
                assert(without_repeats(next.drop_last()) =~= next.drop_last());
                assert(next =~= before.push(next.last()));
            }
        }
        if k == 0 || !same(&sorted[k - 1], &sorted[k]) {
            let item = sorted[k].clone();
            out.push(item);
            assert(views(out@) =~= before.push(item@));
        }
        k = k + 1;
    }
    assert(ordered.take(ordered.len() as int) =~= ordered);
    out
}

/// The words of a text that are closed by white space, and the one still open.
pub open spec fn word_runs(s: Seq<char>) -> (Seq<Seq<char>>, Seq<char>)
    decreases s.len(),
{
    if s.len() == 0 {
        (Seq::empty(), Seq::empty())
    } else {
        let (done, open) = word_runs(s.drop_last());
        if is_white_space(s.last()) {
            (with_run(done, open), Seq::empty())
        } else {
            (done, open.push(s.last()))
        }
    }
}

/// The words of a text: its longest runs without white space.
pub open spec fn words(s: Seq<char>) -> Seq<Seq<char>> {
    with_run(word_runs(s).0, word_runs(s).1)
}

/// Splits a text into its words.
pub fn split_words(s: &str) -> (r: Vec<String>)
    ensures
        views(r@) == words(s@),
{
    let chars = chars_of(s);
    let mut done: Vec<String> = Vec::new();
    let mut open = String::new();
    let mut i: usize = 0;
    proof {
        assert(s@.take(0).len() == 0);
        assert(views(done@) =~= Seq::empty());
    }
    while i < chars.len()
        invariant
            i <= chars@.len(),
            chars@ == s@,
            views(done@) == word_runs(s@.take(i as int)).0,
            open@ == word_runs(s@.take(i as int)).1,
        decreases chars@.len() - i,
    {
        let ghost before = views(done@);
        let ghost run = open@;
        proof {
            assert(s@.take(i + 1).drop_last() =~= s@.take(i as int));
            assert(s@.take(i + 1).last() == s@[i as int]);
        }
        if white_space(chars[i]) {
            if !open.as_str().is_empty() {
                done.push(open);
                assert(views(done@) =~= before.push(run));
            }
            open = String::new();
        } else {
            open.push(chars[i]);
        }
        i = i + 1;
    }
    assert(s@.take(s@.len() as int) =~= s@);
    let ghost before = views(done@);
    let ghost run = open@;
    if !open.as_str().is_empty() {
        done.push(open);
        assert(views(done@) =~= before.push(run));
    }
    done
}

/// A text without the characters `c` at its end.
pub open spec fn without_trailing(s: Seq<char>, c: char) -> Seq<char>
    decreases s.len(),
{
    if s.len() > 0 && s.last() == c {
        without_trailing(s.drop_last(), c)
    } else {
        s
    }
}

/// Strips the characters `c` from the end of a text.
pub fn strip_trailing(s: &str, c: char) -> (r: String)
    ensures
        r@ == without_trailing(s@, c),
{
    let chars = chars_of(s);
    let mut to: usize = chars.len();
    assert(chars@.subrange(0, to as int) =~= s@);
    while to > 0 && chars[to - 1] == c
        invariant
            to <= chars@.len(),
            without_trailing(chars@.subrange(0, to as int), c) == without_trailing(s@, c),
        decreases to,
    {
        proof {
            let rest = chars@.subrange(0, to as int);
            assert(rest.last() == chars@[to - 1]);
            assert(rest.drop_last() =~= chars@.subrange(0, to - 1));
        }
        to = to - 1;
    }
    proof {
        let rest = chars@.subrange(0, to as int);
        assert(to > 0 ==> rest.last() == chars@[to - 1]);
    }
    string_of(&chars, 0, to)
}

/// A line without the carriage return at its end.
pub open spec fn without_return(line: Seq<char>) -> Seq<char> {
    if line.len() > 0 && line.last() == '\r' {
        line.drop_last()
    } else {
        line
    }
}

/// The lines that a line feed has closed, and the one still open.
pub open spec fn line_runs(s: Seq<char>) -> (Seq<Seq<char>>, Seq<char>)
    decreases s.len(),
{
    if s.len() == 0 {
        (Seq::empty(), Seq::empty())
    } else {
        let (done, open) = line_runs(s.drop_last());
        if s.last() == '\n' {
            (done.push(without_return(open)), Seq::empty())
        } else {
            (done, open.push(s.last()))
        }
    }
}

/// The lines of a text: each ends at a line feed, with the carriage return before it,
/// or at the end of the text.
pub open spec fn lines(s: Seq<char>) -> Seq<Seq<char>> {
    with_run(line_runs(s).0, line_runs(s).1)
}

/// Splits a text into its lines.
pub fn split_lines(s: &str) -> (r: Vec<String>)
    ensures
        views(r@) == lines(s@),
{
    let chars = chars_of(s);
    let mut done: Vec<String> = Vec::new();
    let mut open: Vec<char> = Vec::new();
    let mut i: usize = 0;
    proof {
        assert(s@.take(0).len() == 0);
        assert(views(done@) =~= Seq::empty());
        assert(open@ =~= Seq::empty());
    }
    while i < chars.len()
        invariant
            i <= chars@.len(),
            chars@ == s@,
            views(done@) == line_runs(s@.take(i as int)).0,
            open@ == line_runs(s@.take(i as int)).1,
        decreases chars@.len() - i,
    {
        let ghost before = views(done@);
        proof {
            assert(s@.take(i + 1).drop_last() =~= s@.take(i as int));
            assert(s@.take(i + 1).last() == s@[i as int]);
        }
        if chars[i] == '\n' {
            let mut to: usize = open.len();
            if to > 0 && open[to - 1] == '\r' {
                to = to - 1;
            }
            let line = string_of(&open, 0, to);
            assert(line@ =~= without_return(open@));
            done.push(line);
            assert(views(done@) =~= before.push(line@));
            open = Vec::new();
            assert(open@ =~= Seq::empty());
        } else {
            open.push(chars[i]);
        }
        i = i + 1;
    }
    assert(s@.take(s@.len() as int) =~= s@);
    let ghost before = views(done@);
    if open.len() > 0 {
        let line = string_of(&open, 0, open.len());
        assert(line@ =~= open@);
        done.push(line);
        assert(views(done@) =~= before.push(line@));
    }
    done
}

} // verus!
