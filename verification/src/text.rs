//! Text helpers over `char` sequences: conversion, trimming, splitting,
//! replacing, searching and decimal numbers.
use vstd::prelude::*;

verus! {

// ---------------------------------------------------------------------------
// Specifications
// ---------------------------------------------------------------------------

/// Unicode `White_Space`, the property that `str::trim` strips.
pub open spec fn is_white_space(c: char) -> bool {
    let u = c as u32;
    ||| 0x9 <= u <= 0xd
    ||| u == 0x20
    ||| u == 0x85
    ||| u == 0xa0
    ||| u == 0x1680
    ||| 0x2000 <= u <= 0x200a
    ||| u == 0x2028
    ||| u == 0x2029
    ||| u == 0x202f
    ||| u == 0x205f
    ||| u == 0x3000
}

/// `s` without its leading white space.
pub open spec fn trim_start(s: Seq<char>) -> Seq<char>
    decreases s.len(),
{
    if s.len() > 0 && is_white_space(s[0]) {
        trim_start(s.drop_first())
    } else {
        s
    }
}

/// `s` without its trailing white space.
pub open spec fn trim_end(s: Seq<char>) -> Seq<char>
    decreases s.len(),
{
    if s.len() > 0 && is_white_space(s.last()) {
        trim_end(s.drop_last())
    } else {
        s
    }
}

/// `s` without leading and trailing white space (`str::trim`).
pub open spec fn trimmed(s: Seq<char>) -> Seq<char> {
    trim_end(trim_start(s))
}

/// `p` stands in `s` at position `i`.
pub open spec fn occurs_at(s: Seq<char>, p: Seq<char>, i: int) -> bool {
    0 <= i && i + p.len() <= s.len() && s.subrange(i, i + p.len()) == p
}

/// The first position at or after `i` where `p` stands in `s`.
pub open spec fn find_from(s: Seq<char>, p: Seq<char>, i: int) -> Option<int>
    decreases s.len() + 1 - i,
{
    if i < 0 || i + p.len() > s.len() {
        None
    } else if occurs_at(s, p, i) {
        Some(i)
    } else {
        find_from(s, p, i + 1)
    }
}

/// `p` stands somewhere in `s`.
pub open spec fn contains_seq(s: Seq<char>, p: Seq<char>) -> bool {
    find_from(s, p, 0) is Some
}

/// The pieces of `s[start..]` between the leftmost non-overlapping
/// occurrences of the non-empty pattern `p` (`str::split` with a pattern).
pub open spec fn split_from(s: Seq<char>, p: Seq<char>, start: int) -> Seq<Seq<char>>
    decreases s.len() - start,
{
    if p.len() == 0 || start < 0 || start > s.len() {
        seq![]
    } else {
        match find_from(s, p, start) {
            None => seq![s.subrange(start, s.len() as int)],
            Some(i) => {
                proof {
                    lemma_find_from_bounds(s, p, start);
                }
                seq![s.subrange(start, i)] + split_from(s, p, i + p.len())
            },
        }
    }
}

/// `s` split on the non-empty pattern `p`.
pub open spec fn split_seq(s: Seq<char>, p: Seq<char>) -> Seq<Seq<char>> {
    split_from(s, p, 0)
}

/// `s[start..]` with each leftmost non-overlapping occurrence of the
/// non-empty pattern `from` replaced by `to` (`str::replace`).
pub open spec fn replace_from(s: Seq<char>, from: Seq<char>, to: Seq<char>, start: int) -> Seq<char>
    decreases s.len() - start,
{
    if from.len() == 0 || start < 0 || start > s.len() {
        seq![]
    } else {
        match find_from(s, from, start) {
            None => s.subrange(start, s.len() as int),
            Some(i) => {
                proof {
                    lemma_find_from_bounds(s, from, start);
                }
                s.subrange(start, i) + to + replace_from(s, from, to, i + from.len())
            },
        }
    }
}

/// `s` with every occurrence of the non-empty pattern `from` replaced by `to`.
pub open spec fn replace_seq(s: Seq<char>, from: Seq<char>, to: Seq<char>) -> Seq<char> {
    replace_from(s, from, to, 0)
}

/// The ASCII digit for `d < 10`.
pub open spec fn digit_char(d: nat) -> char {
    ((d + 48) as u32) as char
}

/// The decimal numeral of `n`, without leading zeros (`u64::to_string`).
pub open spec fn decimal(n: nat) -> Seq<char>
    decreases n,
{
    if n < 10 {
        seq![digit_char(n)]
    } else {
        decimal(n / 10).push(digit_char(n % 10))
    }
}

/// The decimal numeral of a signed integer (`i64::to_string`).
pub open spec fn signed_decimal(n: int) -> Seq<char> {
    if n < 0 {
        seq!['-'] + decimal((-n) as nat)
    } else {
        decimal(n as nat)
    }
}

/// `c` is an ASCII decimal digit.
pub open spec fn is_digit(c: char) -> bool {
    '0' <= c && c <= '9'
}

/// The number that the digits `ds` spell, most significant first.
pub open spec fn digits_value(ds: Seq<char>) -> nat
    decreases ds.len(),
{
    if ds.len() == 0 {
        0
    } else {
        digits_value(ds.drop_last()) * 10 + ((ds.last() as u32) - 48) as nat
    }
}

/// The digits that `u32::from_str` reads from `s`: an optional leading `+`
/// is dropped unless it is the whole text.
pub open spec fn unsigned_digits(s: Seq<char>) -> Seq<char> {
    if s.len() > 1 && s[0] == '+' {
        s.drop_first()
    } else {
        s
    }
}

/// What `s.parse::<u32>()` gives: the value when `s` is a non-empty run of
/// ASCII digits (after an optional `+`) that fits in a `u32`.
pub open spec fn parse_u32_spec(s: Seq<char>) -> Option<u32> {
    let ds = unsigned_digits(s);
    if ds.len() > 0 && (forall|i: int| 0 <= i < ds.len() ==> is_digit(#[trigger] ds[i]))
        && digits_value(ds) <= u32::MAX {
        Some(digits_value(ds) as u32)
    } else {
        None
    }
}

// ---------------------------------------------------------------------------
// Lemmas
// ---------------------------------------------------------------------------

/// A found position lies in `[i, s.len() - p.len()]` and `p` stands there.
pub proof fn lemma_find_from_bounds(s: Seq<char>, p: Seq<char>, i: int)
    requires
        0 <= i,
    ensures
        find_from(s, p, i) matches Some(j) ==> i <= j && j + p.len() <= s.len() && occurs_at(s, p, j),
        find_from(s, p, i) matches Some(j) ==> forall|k: int| i <= k < j ==> !occurs_at(s, p, k),
        find_from(s, p, i) is None ==> forall|k: int| i <= k ==> !occurs_at(s, p, k),
    decreases s.len() + 1 - i,
{
    if i + p.len() > s.len() {
    } else if occurs_at(s, p, i) {
    } else {
        lemma_find_from_bounds(s, p, i + 1);
    }
}


/// The views of a sequence of strings.
pub open spec fn views(v: Seq<String>) -> Seq<Seq<char>> {
    v.map_values(|x: String| x@)
}

/// Splitting always gives at least one piece.
pub proof fn lemma_split_nonempty(s: Seq<char>, p: Seq<char>)
    requires
        p.len() > 0,
    ensures
        split_seq(s, p).len() >= 1,
{
}

/// Splitting a text that does not hold the pattern gives the text alone.
pub proof fn lemma_split_without_pattern(s: Seq<char>, p: Seq<char>)
    requires
        p.len() > 0,
        !contains_seq(s, p),
    ensures
        split_seq(s, p) == seq![s],
{
    assert(s.subrange(0, s.len() as int) =~= s);
}

/// Searching `x + t` from inside `t` finds what searching `t` finds,
/// shifted by the length of `x`.
pub proof fn lemma_find_from_shift(x: Seq<char>, t: Seq<char>, p: Seq<char>, i: int)
    requires
        0 <= i,
    ensures
        find_from(x + t, p, x.len() + i) == (match find_from(t, p, i) {
            Some(j) => Some(x.len() + j),
            None => None::<int>,
        }),
    decreases t.len() + 1 - i,
{
    let s = x + t;
    let n = x.len() as int;
    if i + p.len() <= t.len() {
        assert(s.subrange(n + i, n + i + p.len()) =~= t.subrange(i, i + p.len()));
        if !occurs_at(t, p, i) {
            lemma_find_from_shift(x, t, p, i + 1);
        }
    }
}

/// Splitting `x + t` from inside `t` gives the pieces of `t` from there.
proof fn lemma_split_from_shift(x: Seq<char>, t: Seq<char>, p: Seq<char>, i: int)
    requires
        p.len() > 0,
        0 <= i <= t.len(),
    ensures
        split_from(x + t, p, x.len() + i) == split_from(t, p, i),
    decreases t.len() - i,
{
    let s = x + t;
    let n = x.len() as int;
    lemma_find_from_shift(x, t, p, i);
    lemma_find_from_bounds(t, p, i);
    match find_from(t, p, i) {
        None => {
            assert(s.subrange(n + i, s.len() as int) =~= t.subrange(i, t.len() as int));
        },
        Some(j) => {
            assert(s.subrange(n + i, n + j) =~= t.subrange(i, j));
            lemma_split_from_shift(x, t, p, j + p.len());
        },
    }
}

/// A text without the character `c` holds the one-character pattern `c`
/// nowhere.
proof fn lemma_find_char_absent(s: Seq<char>, c: char, i: int)
    requires
        !s.contains(c),
        0 <= i,
    ensures
        find_from(s, seq![c], i) is None,
    decreases s.len() + 1 - i,
{
    if i + 1 <= s.len() {
        if occurs_at(s, seq![c], i) {
            assert(s.subrange(i, i + 1)[0] == s[i]);
            assert(s.contains(s[i]));
        }
        lemma_find_char_absent(s, c, i + 1);
    }
}

/// Splitting a text without the character `c` at `c` gives the text alone.
pub proof fn lemma_split_char_absent(s: Seq<char>, c: char)
    requires
        !s.contains(c),
    ensures
        split_seq(s, seq![c]) == seq![s],
{
    lemma_find_char_absent(s, c, 0);
    lemma_split_without_pattern(s, seq![c]);
}

/// In `u c s`, the first `c` at or after a position of `u` is the first one
/// of `u` there, or else the one after `u`.
proof fn lemma_find_char_before(u: Seq<char>, c: char, s: Seq<char>, i: int)
    requires
        0 <= i <= u.len(),
    ensures
        find_from(u + seq![c] + s, seq![c], i) == (match find_from(u, seq![c], i) {
            Some(j) => Some(j),
            None => Some(u.len() as int),
        }),
    decreases u.len() - i,
{
    let w = u + seq![c] + s;
    let n = u.len() as int;
    if i == n {
        assert(w.subrange(n, n + 1) =~= seq![c]);
    } else {
        assert(w.subrange(i, i + 1) =~= u.subrange(i, i + 1));
        if !occurs_at(u, seq![c], i) {
            lemma_find_char_before(u, c, s, i + 1);
        }
    }
}

proof fn lemma_split_from_char_concat(u: Seq<char>, s: Seq<char>, c: char, i: int)
    requires
        0 <= i <= u.len(),
    ensures
        split_from(u + seq![c] + s, seq![c], i) == split_from(u, seq![c], i) + split_seq(s, seq![c]),
    decreases u.len() - i,
{
    let p = seq![c];
    let w = u + p + s;
    let n = u.len() as int;
    lemma_find_char_before(u, c, s, i);
    lemma_find_from_bounds(u, p, i);
    match find_from(u, p, i) {
        Some(j) => {
            assert(w.subrange(i, j) =~= u.subrange(i, j));
            lemma_split_from_char_concat(u, s, c, j + 1);
            assert(split_from(w, p, i) =~= split_from(u, p, i) + split_seq(s, p));
        },
        None => {
            assert(w.subrange(i, n) =~= u.subrange(i, n));
            lemma_split_from_shift(u + p, s, p, 0);
            assert(split_from(w, p, i) =~= split_from(u, p, i) + split_seq(s, p));
        },
    }
}

/// Splitting at a one-character pattern `c`: the pieces of `u c s` are
/// those of `u` followed by those of `s`.
pub proof fn lemma_split_char_concat(u: Seq<char>, s: Seq<char>, c: char)
    ensures
        split_seq(u + seq![c] + s, seq![c]) == split_seq(u, seq![c]) + split_seq(s, seq![c]),
{
    lemma_split_from_char_concat(u, s, c, 0);
}

/// The pieces of a split, joined back with the pattern between them.
pub open spec fn join_seq(pieces: Seq<Seq<char>>, p: Seq<char>) -> Seq<char>
    decreases pieces.len(),
{
    if pieces.len() == 0 {
        seq![]
    } else if pieces.len() == 1 {
        pieces[0]
    } else {
        pieces[0] + p + join_seq(pieces.drop_first(), p)
    }
}

/// Splitting `s[start..]` and joining the pieces back gives `s[start..]`.
proof fn lemma_split_from_join(s: Seq<char>, p: Seq<char>, start: int)
    requires
        p.len() > 0,
        0 <= start <= s.len(),
    ensures
        join_seq(split_from(s, p, start), p) == s.subrange(start, s.len() as int),
    decreases s.len() - start,
{
    match find_from(s, p, start) {
        None => {},
        Some(i) => {
            lemma_find_from_bounds(s, p, start);
            let rest = split_from(s, p, i + p.len());
            lemma_split_from_join(s, p, i + p.len());
            lemma_split_from_nonempty(s, p, i + p.len());
            let pieces = split_from(s, p, start);
            assert(pieces == seq![s.subrange(start, i)] + rest);
            assert(pieces.drop_first() =~= rest);
            assert(s.subrange(i, i + p.len()) == p);
            assert(s.subrange(start, i) + p + s.subrange(i + p.len(), s.len() as int) =~= s.subrange(
                start,
                s.len() as int,
            ));
        },
    }
}

/// A split of `s[start..]` has at least one piece.
proof fn lemma_split_from_nonempty(s: Seq<char>, p: Seq<char>, start: int)
    requires
        p.len() > 0,
        0 <= start <= s.len(),
    ensures
        split_from(s, p, start).len() >= 1,
{
}

/// Joining the pieces of a split with its pattern gives back the text.
pub proof fn lemma_split_join(s: Seq<char>, p: Seq<char>)
    requires
        p.len() > 0,
    ensures
        join_seq(split_seq(s, p), p) == s,
{
    lemma_split_from_join(s, p, 0);
    assert(s.subrange(0, s.len() as int) =~= s);
}

/// No piece of a split holds the pattern.
pub proof fn lemma_split_pieces_free(s: Seq<char>, p: Seq<char>)
    requires
        p.len() > 0,
    ensures
        forall|k: int| 0 <= k < split_seq(s, p).len() ==> !contains_seq(#[trigger] split_seq(s, p)[k], p),
{
    lemma_split_from_pieces_free(s, p, 0);
}

/// No occurrence of `p` in `s[a..b]` that ends before `b` when none starts in `[a, b - |p|]`.
proof fn lemma_no_occurrence_in_piece(s: Seq<char>, p: Seq<char>, a: int, b: int)
    requires
        p.len() > 0,
        0 <= a <= b <= s.len(),
        forall|k: int| a <= k && k + p.len() <= b ==> !occurs_at(s, p, k),
    ensures
        !contains_seq(s.subrange(a, b), p),
{
    let piece = s.subrange(a, b);
    lemma_find_from_bounds(piece, p, 0);
    if let Some(j) = find_from(piece, p, 0) {
        assert(occurs_at(piece, p, j));
        assert(piece.subrange(j, j + p.len()) =~= s.subrange(a + j, a + j + p.len()));
        assert(occurs_at(s, p, a + j));
    }
}

proof fn lemma_split_from_pieces_free(s: Seq<char>, p: Seq<char>, start: int)
    requires
        p.len() > 0,
        0 <= start <= s.len(),
    ensures
        forall|k: int|
            0 <= k < split_from(s, p, start).len() ==> !contains_seq(
                #[trigger] split_from(s, p, start)[k],
                p,
            ),
    decreases s.len() - start,
{
    lemma_find_from_bounds(s, p, start);
    match find_from(s, p, start) {
        None => {
            lemma_no_occurrence_in_piece(s, p, start, s.len() as int);
        },
        Some(i) => {
            lemma_split_from_pieces_free(s, p, i + p.len());
            lemma_no_occurrence_in_piece(s, p, start, i);
            let pieces = split_from(s, p, start);
            let rest = split_from(s, p, i + p.len());
            assert forall|k: int| 0 <= k < pieces.len() implies !contains_seq(#[trigger] pieces[k], p) by {
                if k > 0 {
                    assert(pieces[k] == rest[k - 1]);
                }
            }
        },
    }
}

/// Replacing a pattern that does not occur leaves the text as it is.
pub proof fn lemma_replace_absent(s: Seq<char>, from: Seq<char>, to: Seq<char>)
    requires
        from.len() > 0,
        !contains_seq(s, from),
    ensures
        replace_seq(s, from, to) == s,
{
    assert(s.subrange(0, s.len() as int) =~= s);
}

/// Removing a character from a text that holds it only at both ends gives
/// what stands between them.
pub proof fn lemma_replace_enclosing(s: Seq<char>, c: char)
    requires
        !s.contains(c),
    ensures
        replace_seq(seq![c] + s + seq![c], seq![c], seq![]) == s,
{
    let q = seq![c] + s + seq![c];
    let p = seq![c];
    let n = q.len() as int;
    assert(q.subrange(0, 1) =~= p);
    assert(q.subrange(n - 1, n) =~= p);
    lemma_find_enclosing(s, c, 1);
    assert(find_from(q, p, 0) == Some(0int));
    assert(find_from(q, p, n) is None);
    assert(replace_from(q, p, seq![], n) =~= Seq::<char>::empty());
    assert(replace_from(q, p, seq![], 1) =~= s) by {
        assert(q.subrange(1, n - 1) =~= s);
    }
    assert(replace_from(q, p, seq![], 0) =~= s) by {
        assert(q.subrange(0, 0) + seq![] + replace_from(q, p, seq![], 1) =~= replace_from(q, p, seq![], 1));
    }
}

/// In `c s c` with `c` not in `s`, the first `c` at or after a position
/// inside is the closing one.
proof fn lemma_find_enclosing(s: Seq<char>, c: char, i: int)
    requires
        !s.contains(c),
        1 <= i <= s.len() + 1,
    ensures
        find_from(seq![c] + s + seq![c], seq![c], i) == Some(s.len() as int + 1),
    decreases s.len() + 1 - i,
{
    let q = seq![c] + s + seq![c];
    let n = q.len() as int;
    if i < n - 1 {
        assert(q[i] == s[i - 1]);
        if occurs_at(q, seq![c], i) {
            assert(q.subrange(i, i + 1)[0] == q[i]);
            assert(s.contains(s[i - 1]));
        }
        lemma_find_enclosing(s, c, i + 1);
    } else {
        assert(q.subrange(n - 1, n) =~= seq![c]);
    }
}

/// `trim_start` leaves a text that is empty or starts with a non-space.
proof fn lemma_trim_start_shape(s: Seq<char>)
    ensures
        trim_start(s).len() == 0 || !is_white_space(trim_start(s)[0]),
        exists|k: int| 0 <= k <= s.len() && trim_start(s) == s.subrange(k, s.len() as int),
    decreases s.len(),
{
    if s.len() > 0 && is_white_space(s[0]) {
        lemma_trim_start_shape(s.drop_first());
        let k = choose|k: int|
            0 <= k <= s.drop_first().len() && trim_start(s.drop_first()) == s.drop_first().subrange(
                k,
                s.drop_first().len() as int,
            );
        assert(s.drop_first().subrange(k, s.drop_first().len() as int) =~= s.subrange(
            k + 1,
            s.len() as int,
        ));
    } else {
        assert(s.subrange(0, s.len() as int) =~= s);
    }
}

/// `trim_end` leaves a prefix that is empty or ends with a non-space.
proof fn lemma_trim_end_shape(s: Seq<char>)
    ensures
        trim_end(s).len() == 0 || !is_white_space(trim_end(s).last()),
        exists|k: int| 0 <= k <= s.len() && trim_end(s) == s.subrange(0, k),
    decreases s.len(),
{
    if s.len() > 0 && is_white_space(s.last()) {
        lemma_trim_end_shape(s.drop_last());
        let k = choose|k: int|
            0 <= k <= s.drop_last().len() && trim_end(s.drop_last()) == s.drop_last().subrange(0, k);
        assert(s.drop_last().subrange(0, k) =~= s.subrange(0, k));
    } else {
        assert(s.subrange(0, s.len() as int) =~= s);
    }
}

/// A text that starts and ends with a non-space is its own trim.
proof fn lemma_trim_fixed(s: Seq<char>)
    requires
        s.len() == 0 || (!is_white_space(s[0]) && !is_white_space(s.last())),
    ensures
        trimmed(s) == s,
{
}

/// Trimming twice is trimming once.
pub proof fn lemma_trim_idempotent(s: Seq<char>)
    ensures
        trimmed(trimmed(s)) == trimmed(s),
{
    let a = trim_start(s);
    lemma_trim_start_shape(s);
    lemma_trim_end_shape(a);
    let t = trim_end(a);
    let k = choose|k: int| 0 <= k <= a.len() && t == a.subrange(0, k);
    if t.len() > 0 {
        assert(t[0] == a[0]);
    }
    lemma_trim_fixed(t);
}

/// The decimal numeral is made of digits and spells `n`.
proof fn lemma_decimal_digits(n: nat)
    ensures
        decimal(n).len() > 0,
        forall|i: int| 0 <= i < decimal(n).len() ==> is_digit(#[trigger] decimal(n)[i]),
        digits_value(decimal(n)) == n,
    decreases n,
{
    let d = digit_char(n % 10);
    assert((d as u32) == n % 10 + 48);
    if n >= 10 {
        lemma_decimal_digits(n / 10);
        let prev = decimal(n / 10);
        assert(decimal(n) == prev.push(d));
        assert(decimal(n).drop_last() =~= prev);
        assert forall|i: int| 0 <= i < decimal(n).len() implies is_digit(#[trigger] decimal(n)[i]) by {
            if i < prev.len() {
                assert(decimal(n)[i] == prev[i]);
            }
        }
        assert(decimal(n).last() == d);
        assert(((d as u32) - 48) as nat == n % 10);
        assert(digits_value(decimal(n)) == digits_value(prev) * 10 + n % 10);
        assert(n == (n / 10) * 10 + n % 10);
    } else {
        assert(decimal(n).drop_last() =~= Seq::<char>::empty());
        assert(decimal(n).last() == d);
        assert(digits_value(decimal(n)) == digits_value(Seq::<char>::empty()) * 10 + n % 10);
    }
}

/// Reading back the decimal numeral of a `u32` gives the number.
pub proof fn lemma_parse_decimal(n: u32)
    ensures
        parse_u32_spec(decimal(n as nat)) == Some(n),
{
    lemma_decimal_digits(n as nat);
    let ds = decimal(n as nat);
    assert(unsigned_digits(ds) == ds) by {
        if ds.len() > 1 {
            assert(is_digit(ds[0]));
        }
    }
}

/// Decimal values never shrink when digits are appended.
pub proof fn lemma_digits_value_prefix(ds: Seq<char>, k: int)
    requires
        0 <= k <= ds.len(),
        forall|i: int| 0 <= i < ds.len() ==> is_digit(#[trigger] ds[i]),
    ensures
        digits_value(ds.take(k)) <= digits_value(ds),
    decreases ds.len(),
{
    if k < ds.len() {
        let init = ds.drop_last();
        assert forall|i: int| 0 <= i < init.len() implies is_digit(#[trigger] init[i]) by {
            assert(init[i] == ds[i]);
        }
        lemma_digits_value_prefix(init, k);
        assert(init.take(k) =~= ds.take(k));
        let x = digits_value(init);
        assert(x * 10 >= x) by (nonlinear_arith);
    } else {
        assert(ds.take(k) =~= ds);
    }
}

// ---------------------------------------------------------------------------
// Executable helpers
// ---------------------------------------------------------------------------

/// Whether `c` is Unicode white space (`char::is_whitespace`).
pub fn is_white_space_char(c: char) -> (r: bool)
    ensures
        r == is_white_space(c),
{
    let u = c as u32;
    (0x9 <= u && u <= 0xd) || u == 0x20 || u == 0x85 || u == 0xa0 || u == 0x1680 || (0x2000 <= u
        && u <= 0x200a) || u == 0x2028 || u == 0x2029 || u == 0x202f || u == 0x205f || u == 0x3000
}

/// `s` without leading and trailing white space (`str::trim`).
pub fn trim(s: &str) -> (r: String)
    ensures
        r@ == trimmed(s@),
{
    let cs = chars_of(s);
    let len = cs.len();
    let mut a: usize = 0;
    assert(cs@.subrange(0, len as int) =~= cs@);
    while a < len && is_white_space_char(cs[a])
        invariant
            a <= len == cs@.len(),
            trim_start(cs@) == trim_start(cs@.subrange(a as int, len as int)),
        decreases len - a,
    {
        assert(cs@.subrange(a as int, len as int).drop_first() =~= cs@.subrange(a + 1, len as int));
        a = a + 1;
    }
    let mut b: usize = len;
    while b > a && is_white_space_char(cs[b - 1])
        invariant
            a <= b <= len == cs@.len(),
            trim_end(cs@.subrange(a as int, len as int)) == trim_end(cs@.subrange(a as int, b as int)),
        decreases b,
    {
        assert(cs@.subrange(a as int, b as int).drop_last() =~= cs@.subrange(a as int, b - 1));
        b = b - 1;
    }
    string_of_range(&cs, a, b)
}

/// Whether `p` stands in `s` at position `i`.
fn occurs_at_exec(s: &Vec<char>, p: &Vec<char>, i: usize) -> (r: bool)
    ensures
        r == occurs_at(s@, p@, i as int),
{
    if i > s.len() || p.len() > s.len() - i {
        return false;
    }
    let mut k: usize = 0;
    while k < p.len()
        invariant
            i + p.len() <= s.len(),
            k <= p.len(),
            forall|j: int| 0 <= j < k ==> s@[i + j] == p@[j],
        decreases p.len() - k,
    {
        if s[i + k] != p[k] {
            assert(s@.subrange(i as int, i + p@.len())[k as int] != p@[k as int]);
            return false;
        }
        k = k + 1;
    }
    assert(s@.subrange(i as int, i + p@.len()) =~= p@);
    true
}

/// The first position at or after `i` where `p` stands in `s`.
fn find_at(s: &Vec<char>, p: &Vec<char>, i: usize) -> (r: Option<usize>)
    ensures
        r matches Some(j) ==> find_from(s@, p@, i as int) == Some(j as int),
        r is None ==> find_from(s@, p@, i as int) is None,
{
    let mut j: usize = i;
    while j <= s.len() && p.len() <= s.len() - j
        invariant
            i <= j,
            find_from(s@, p@, i as int) == find_from(s@, p@, j as int),
        decreases s.len() + 1 - j,
    {
        if occurs_at_exec(s, p, j) {
            return Some(j);
        }
        assert(p@.len() > 0) by {
            if p@.len() == 0 {
                assert(s@.subrange(j as int, j as int) =~= p@);
            }
        }
        j = j + 1;
    }
    None
}

/// Whether `a` and `b` hold the same characters (`==` on `str`).
pub fn same_text(a: &str, b: &str) -> (r: bool)
    ensures
        r == (a@ == b@),
{
    let x = chars_of(a);
    let y = chars_of(b);
    if x.len() != y.len() {
        return false;
    }
    let mut i: usize = 0;
    while i < x.len()
        invariant
            i <= x@.len() == y@.len(),
            x@ == a@,
            y@ == b@,
            forall|j: int| 0 <= j < i ==> x@[j] == y@[j],
        decreases x.len() - i,
    {
        if x[i] != y[i] {
            return false;
        }
        i = i + 1;
    }
    assert(x@ =~= y@);
    true
}

/// Whether `p` stands somewhere in `s` (`str::contains`).
pub fn contains_str(s: &str, p: &str) -> (r: bool)
    ensures
        r == contains_seq(s@, p@),
{
    let cs = chars_of(s);
    let ps = chars_of(p);
    find_at(&cs, &ps, 0).is_some()
}

/// Whether the character `c` occurs in `s` (`str::contains` with a `char`).
pub fn contains_char(s: &str, c: char) -> (r: bool)
    ensures
        r == s@.contains(c),
{
    let cs = chars_of(s);
    let mut i: usize = 0;
    while i < cs.len()
        invariant
            i <= cs@.len(),
            cs@ == s@,
            forall|j: int| 0 <= j < i ==> cs@[j] != c,
        decreases cs.len() - i,
    {
        if cs[i] == c {
            return true;
        }
        i = i + 1;
    }
    false
}

/// The pieces of `s` between the occurrences of the non-empty pattern `p`
/// (`str::split`).
pub fn split_str(s: &str, p: &str) -> (r: Vec<String>)
    requires
        p@.len() > 0,
    ensures
        views(r@) == split_seq(s@, p@),
{
    let cs = chars_of(s);
    let ps = chars_of(p);
    let len = cs.len();
    let mut pieces: Vec<String> = Vec::new();
    let mut start: usize = 0;
    loop
        invariant_except_break
            start <= len == cs@.len(),
            ps@.len() > 0,
            split_from(cs@, ps@, 0) == views(pieces@) + split_from(cs@, ps@, start as int),
        ensures
            split_from(cs@, ps@, 0) == views(pieces@),
        decreases len + 1 - start,
    {
        let ghost old_pieces = pieces@;
        match find_at(&cs, &ps, start) {
            None => {
                let piece = string_of_range(&cs, start, len);
                pieces.push(piece);
                assert(views(pieces@) =~= views(old_pieces).push(piece@));
                assert(views(pieces@) =~= views(old_pieces) + split_from(cs@, ps@, start as int));
                break ;
            },
            Some(i) => {
                proof {
                    lemma_find_from_bounds(cs@, ps@, start as int);
                }
                let piece = string_of_range(&cs, start, i);
                pieces.push(piece);
                assert(views(pieces@) =~= views(old_pieces).push(piece@));
                assert(split_from(cs@, ps@, start as int) == seq![piece@] + split_from(
                    cs@,
                    ps@,
                    i + ps@.len(),
                ));
                assert(views(old_pieces) + split_from(cs@, ps@, start as int) =~= views(pieces@)
                    + split_from(cs@, ps@, i + ps@.len()));
                start = i + ps.len();
            },
        }
    }
    pieces
}

/// The first piece of `s` split on the non-empty pattern `p`
/// (`s.split(p).next()`, which is never `None`).
pub fn first_piece(s: &str, p: &str) -> (r: String)
    requires
        p@.len() > 0,
    ensures
        r@ == split_seq(s@, p@)[0],
{
    let pieces = split_str(s, p);
    proof {
        lemma_split_nonempty(s@, p@);
    }
    assert(views(pieces@)[0] == pieces@[0]@);
    pieces[0].clone()
}

/// `s` with each occurrence of the non-empty pattern `from` replaced by `to`
/// (`str::replace`).
pub fn replace_str(s: &str, from: &str, to: &str) -> (r: String)
    requires
        from@.len() > 0,
    ensures
        r@ == replace_seq(s@, from@, to@),
{
    let cs = chars_of(s);
    let fs = chars_of(from);
    let len = cs.len();
    let mut out = String::new();
    let mut start: usize = 0;
    loop
        invariant_except_break
            start <= len == cs@.len(),
            fs@.len() > 0,
            replace_from(cs@, fs@, to@, 0) == out@ + replace_from(cs@, fs@, to@, start as int),
        ensures
            replace_from(cs@, fs@, to@, 0) == out@,
        decreases len + 1 - start,
    {
        let ghost old_out = out@;
        match find_at(&cs, &fs, start) {
            None => {
                let piece = string_of_range(&cs, start, len);
                out.append(piece.as_str());
                assert(out@ =~= old_out + replace_from(cs@, fs@, to@, start as int));
                break ;
            },
            Some(i) => {
                proof {
                    lemma_find_from_bounds(cs@, fs@, start as int);
                }
                let piece = string_of_range(&cs, start, i);
                out.append(piece.as_str());
                out.append(to);
                assert(old_out + replace_from(cs@, fs@, to@, start as int) =~= out@ + replace_from(
                    cs@,
                    fs@,
                    to@,
                    i + fs@.len(),
                ));
                start = i + fs.len();
            },
        }
    }
    out
}

/// The decimal numeral of `n` (`u64::to_string`).
pub fn decimal_string(n: u64) -> (r: String)
    ensures
        r@ == decimal(n as nat),
    decreases n,
{
    let d: u8 = (n % 10) as u8;
    let c: char = (d + 48) as char;
    assert(c == digit_char((n % 10) as nat));
    if n < 10 {
        let mut r = String::new();
        push_char(&mut r, c);
        r
    } else {
        let mut r = decimal_string(n / 10);
        push_char(&mut r, c);
        r
    }
}

/// The decimal numeral of a signed `n` (`i64::to_string`).
pub fn signed_decimal_string(n: i64) -> (r: String)
    ensures
        r@ == signed_decimal(n as int),
{
    if n < 0 {
        let m: u64 = (0 - (n as i128)) as u64;
        let mut r = String::from_str("-");
        proof {
            reveal_strlit("-");
        }
        r.append(decimal_string(m).as_str());
        r
    } else {
        decimal_string(n as u64)
    }
}

/// `s.parse::<u32>()`: `None` exactly where std reports an error.
pub fn parse_u32(s: &str) -> (r: Option<u32>)
    ensures
        r == parse_u32_spec(s@),
{
    let cs = chars_of(s);
    let len = cs.len();
    let start: usize = if len > 1 && cs[0] == '+' { 1 } else { 0 };
    let ghost ds = unsigned_digits(cs@);
    assert(ds =~= cs@.subrange(start as int, len as int));
    if start == len {
        return None;
    }
    let mut v: u64 = 0;
    let mut i: usize = start;
    while i < len
        invariant
            start <= i <= len == cs@.len(),
            cs@ == s@,
            ds == unsigned_digits(s@),
            ds == cs@.subrange(start as int, len as int),
            forall|j: int| 0 <= j < i - start ==> is_digit(#[trigger] ds[j]),
            v == digits_value(ds.take(i - start)),
            v <= u32::MAX,
        decreases len - i,
    {
        let c = cs[i];
        if !('0' <= c && c <= '9') {
            assert(!is_digit(ds[i - start]));
            assert(!(forall|j: int| 0 <= j < ds.len() ==> is_digit(#[trigger] ds[j])));
            assert(parse_u32_spec(s@) is None);
            return None;
        }
        assert(ds.take(i - start + 1).drop_last() =~= ds.take(i - start));
        assert(ds.take(i - start + 1).last() == c);
        assert(digits_value(ds.take(i - start + 1)) == v * 10 + ((c as u32) - 48) as nat);
        v = v * 10 + ((c as u32) - 48) as u64;
        if v > 0xffff_ffff {
            proof {
                if forall|j: int| 0 <= j < ds.len() ==> is_digit(#[trigger] ds[j]) {
                    lemma_digits_value_prefix(ds, i - start + 1);
                }
                assert(parse_u32_spec(s@) is None);
            }
            return None;
        }
        i = i + 1;
    }
    assert(ds.take(len - start) =~= ds);
    Some(v as u32)
}

// ---------------------------------------------------------------------------
// Conversions between `String` and `Vec<char>`
// ---------------------------------------------------------------------------

/// Appends one character to a `String` (std's `String::push`): the string's
/// characters afterwards are the old ones followed by `c`.
#[verifier::external_body]
fn push_char(s: &mut String, c: char)
    ensures
        final(s)@ == old(s)@.push(c),
{
    s.push(c);
}

/// The characters of `s`, in order.
pub fn chars_of(s: &str) -> (r: Vec<char>)
    ensures
        r@ == s@,
{
    let mut r: Vec<char> = Vec::new();
    for c in it: s.chars()
        invariant
            r@ == it.seq().take(it.index() as int),
    {
        r.push(c);
    }
    r
}

/// A `String` made of the characters `cs[from..to]`, in order.
pub fn string_of_range(cs: &Vec<char>, from: usize, to: usize) -> (r: String)
    requires
        from <= to <= cs.len(),
    ensures
        r@ == cs@.subrange(from as int, to as int),
{
    let mut r = String::new();
    let mut i: usize = from;
    while i < to
        invariant
            from <= i <= to <= cs.len(),
            r@ == cs@.subrange(from as int, i as int),
        decreases to - i,
    {
        push_char(&mut r, cs[i]);
        assert(cs@.subrange(from as int, i as int).push(cs@[i as int]) =~= cs@.subrange(
            from as int,
            i + 1,
        ));
        i = i + 1;
    }
    r
}

/// A `String` made of the characters of `cs`, in order.
pub fn string_of(cs: &Vec<char>) -> (r: String)
    ensures
        r@ == cs@,
{
    let r = string_of_range(cs, 0, cs.len());
    assert(cs@.subrange(0, cs.len() as int) =~= cs@);
    r
}

} // verus!
