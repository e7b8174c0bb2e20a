//! Plain-text helpers: decimal and hexadecimal renderings of small integers,
//! and splitting character sequences on a separator.  The wire forms of
//! addresses and versions are built from these pieces.

use vstd::prelude::*;
use vstd::string::StrSliceExecFns;
use vstd::string::StringExecFns;

verus! {

// ---------------------------------------------------------------------------
// Digits
// ---------------------------------------------------------------------------

/// The decimal digit character for a value below ten.
pub open spec fn dec_char(d: int) -> char {
    if d == 0 { '0' }
    else if d == 1 { '1' }
    else if d == 2 { '2' }
    else if d == 3 { '3' }
    else if d == 4 { '4' }
    else if d == 5 { '5' }
    else if d == 6 { '6' }
    else if d == 7 { '7' }
    else if d == 8 { '8' }
    else { '9' }
}

pub open spec fn is_dec(c: char) -> bool {
    48 <= c as u32 && c as u32 <= 57
}

pub open spec fn dec_val(c: char) -> int {
    c as u32 - 48
}

/// The lowercase hexadecimal digit character for a value below sixteen.
pub open spec fn hex_char(d: int) -> char {
    if d < 10 { dec_char(d) }
    else if d == 10 { 'a' }
    else if d == 11 { 'b' }
    else if d == 12 { 'c' }
    else if d == 13 { 'd' }
    else if d == 14 { 'e' }
    else { 'f' }
}

/// The uppercase hexadecimal digit character for a value below sixteen.
pub open spec fn hex_char_upper(d: int) -> char {
    if d < 10 { dec_char(d) }
    else if d == 10 { 'A' }
    else if d == 11 { 'B' }
    else if d == 12 { 'C' }
    else if d == 13 { 'D' }
    else if d == 14 { 'E' }
    else { 'F' }
}

pub open spec fn is_hex(c: char) -> bool {
    is_dec(c) || (97 <= c as u32 && c as u32 <= 102) || (65 <= c as u32 && c as u32 <= 70)
}

/// Hexadecimal digit value; letters may be of either case.
pub open spec fn hex_val(c: char) -> int {
    if is_dec(c) { dec_val(c) }
    else if 97 <= c as u32 && c as u32 <= 102 { c as u32 - 87 }
    else { c as u32 - 55 }
}

proof fn lemma_dec_char_val(d: int)
    requires
        0 <= d < 10,
    ensures
        is_dec(dec_char(d)),
        dec_val(dec_char(d)) == d,
        is_hex(dec_char(d)),
        hex_val(dec_char(d)) == d,
{
}

proof fn lemma_hex_char_val(d: int)
    requires
        0 <= d < 16,
    ensures
        is_hex(hex_char(d)),
        hex_val(hex_char(d)) == d,
        is_hex(hex_char_upper(d)),
        hex_val(hex_char_upper(d)) == d,
{
    if d < 10 {
        lemma_dec_char_val(d);
    }
}

// ---------------------------------------------------------------------------
// Values of digit sequences
// ---------------------------------------------------------------------------

pub open spec fn all_dec(s: Seq<char>) -> bool {
    forall|i: int| 0 <= i < s.len() ==> is_dec(s[i])
}

pub open spec fn all_hex(s: Seq<char>) -> bool {
    forall|i: int| 0 <= i < s.len() ==> is_hex(s[i])
}

pub open spec fn dec_seq_val(s: Seq<char>) -> int
    decreases s.len(),
{
    if s.len() == 0 {
        0
    } else {
        dec_seq_val(s.drop_last()) * 10 + dec_val(s.last())
    }
}

pub open spec fn hex_seq_val(s: Seq<char>) -> int
    decreases s.len(),
{
    if s.len() == 0 {
        0
    } else {
        hex_seq_val(s.drop_last()) * 16 + hex_val(s.last())
    }
}

proof fn lemma_hex_seq_val_bound(s: Seq<char>)
    requires
        all_hex(s),
        s.len() <= 4,
    ensures
        0 <= hex_seq_val(s),
        s.len() <= 1 ==> hex_seq_val(s) < 16,
        s.len() <= 2 ==> hex_seq_val(s) < 256,
        s.len() <= 3 ==> hex_seq_val(s) < 4096,
        hex_seq_val(s) < 65536,
    decreases s.len(),
{
    if s.len() > 0 {
        assert(all_hex(s.drop_last())) by {
            assert(forall|i: int| 0 <= i < s.len() - 1 ==> s.drop_last()[i] == s[i]);
        }
        lemma_hex_seq_val_bound(s.drop_last());
        assert(is_hex(s.last()));
        assert(0 <= hex_val(s.last()) < 16);
    }
}

proof fn lemma_dec_seq_val_bound(s: Seq<char>)
    requires
        all_dec(s),
        s.len() <= 3,
    ensures
        0 <= dec_seq_val(s),
        s.len() <= 1 ==> dec_seq_val(s) < 10,
        s.len() <= 2 ==> dec_seq_val(s) < 100,
        dec_seq_val(s) < 1000,
    decreases s.len(),
{
    if s.len() > 0 {
        assert(all_dec(s.drop_last())) by {
            assert(forall|i: int| 0 <= i < s.len() - 1 ==> s.drop_last()[i] == s[i]);
        }
        lemma_dec_seq_val_bound(s.drop_last());
        assert(is_dec(s.last()));
        assert(0 <= dec_val(s.last()) < 10);
    }
}

// ---------------------------------------------------------------------------
// Parsing small integers
// ---------------------------------------------------------------------------

/// One to three decimal digits whose value fits in a byte.
pub open spec fn parse_u8_dec(s: Seq<char>) -> Option<int> {
    if 1 <= s.len() <= 3 && all_dec(s) && dec_seq_val(s) < 256 {
        Some(dec_seq_val(s))
    } else {
        None
    }
}

/// One to four hexadecimal digits; the value always fits in sixteen bits.
pub open spec fn parse_u16_hex(s: Seq<char>) -> Option<int> {
    if 1 <= s.len() <= 4 && all_hex(s) {
        Some(hex_seq_val(s))
    } else {
        None
    }
}

/// Exactly two hexadecimal digits, as in one byte of a MAC address.
pub open spec fn parse_hex2(s: Seq<char>) -> Option<int> {
    if s.len() == 2 && all_hex(s) {
        Some(hex_seq_val(s))
    } else {
        None
    }
}

// ---------------------------------------------------------------------------
// Renderings of small integers
// ---------------------------------------------------------------------------

/// Minimal decimal rendering of a byte value.
#[verifier::opaque]
pub open spec fn u8_dec(n: int) -> Seq<char> {
    if n < 10 {
        seq![dec_char(n)]
    } else if n < 100 {
        seq![dec_char(n / 10), dec_char(n % 10)]
    } else {
        seq![dec_char(n / 100), dec_char((n / 10) % 10), dec_char(n % 10)]
    }
}

/// Minimal lowercase hexadecimal rendering of a sixteen-bit value.
#[verifier::opaque]
pub open spec fn u16_hex(n: int) -> Seq<char> {
    if n < 16 {
        seq![hex_char(n)]
    } else if n < 256 {
        seq![hex_char(n / 16), hex_char(n % 16)]
    } else if n < 4096 {
        seq![hex_char(n / 256), hex_char((n / 16) % 16), hex_char(n % 16)]
    } else {
        seq![
            hex_char(n / 4096),
            hex_char((n / 256) % 16),
            hex_char((n / 16) % 16),
            hex_char(n % 16),
        ]
    }
}

/// Two-digit uppercase hexadecimal rendering of a byte value.
pub open spec fn hex2_upper(n: int) -> Seq<char> {
    seq![hex_char_upper(n / 16), hex_char_upper(n % 16)]
}

/// Minimal decimal rendering of an arbitrary non-negative value.
pub open spec fn nat_dec(n: int) -> Seq<char>
    decreases n,
{
    if n < 10 {
        seq![dec_char(if n < 0 { 0 } else { n })]
    } else {
        nat_dec(n / 10) + seq![dec_char(n % 10)]
    }
}

pub proof fn lemma_u8_dec_parse(n: int)
    requires
        0 <= n < 256,
    ensures
        parse_u8_dec(u8_dec(n)) == Some(n),
{
    reveal(u8_dec);
    reveal_with_fuel(dec_seq_val, 5);
    let s = u8_dec(n);
    if n < 10 {
        lemma_dec_char_val(n);
        assert(s.drop_last() =~= Seq::<char>::empty());
        assert(dec_seq_val(s) == n);
    } else if n < 100 {
        lemma_dec_char_val(n / 10);
        lemma_dec_char_val(n % 10);
        assert(s.drop_last() =~= seq![dec_char(n / 10)]);
        assert(s.drop_last().drop_last() =~= Seq::<char>::empty());
        assert(dec_seq_val(s) == (n / 10) * 10 + n % 10);
        assert((n / 10) * 10 + n % 10 == n);
    } else {
        lemma_dec_char_val(n / 100);
        lemma_dec_char_val((n / 10) % 10);
        lemma_dec_char_val(n % 10);
        assert(s.drop_last() =~= seq![dec_char(n / 100), dec_char((n / 10) % 10)]);
        assert(s.drop_last().drop_last() =~= seq![dec_char(n / 100)]);
        assert(s.drop_last().drop_last().drop_last() =~= Seq::<char>::empty());
        assert(dec_seq_val(s) == ((n / 100) * 10 + (n / 10) % 10) * 10 + n % 10);
        assert(((n / 100) * 10 + (n / 10) % 10) * 10 + n % 10 == n) by (nonlinear_arith)
            requires 100 <= n < 256;
    }
}

pub proof fn lemma_u16_hex_parse(n: int)
    requires
        0 <= n < 65536,
    ensures
        parse_u16_hex(u16_hex(n)) == Some(n),
{
    reveal(u16_hex);
    reveal_with_fuel(hex_seq_val, 6);
    let s = u16_hex(n);
    if n < 16 {
        lemma_hex_char_val(n);
        assert(s.drop_last() =~= Seq::<char>::empty());
        assert(hex_seq_val(s) == n);
    } else if n < 256 {
        lemma_hex_char_val(n / 16);
        lemma_hex_char_val(n % 16);
        assert(s.drop_last() =~= seq![hex_char(n / 16)]);
        assert(s.drop_last().drop_last() =~= Seq::<char>::empty());
        assert(hex_seq_val(s) == (n / 16) * 16 + n % 16);
        assert((n / 16) * 16 + n % 16 == n);
    } else if n < 4096 {
        lemma_hex_char_val(n / 256);
        lemma_hex_char_val((n / 16) % 16);
        lemma_hex_char_val(n % 16);
        assert(s.drop_last() =~= seq![hex_char(n / 256), hex_char((n / 16) % 16)]);
        assert(s.drop_last().drop_last() =~= seq![hex_char(n / 256)]);
        assert(s.drop_last().drop_last().drop_last() =~= Seq::<char>::empty());
        assert(hex_seq_val(s) == ((n / 256) * 16 + (n / 16) % 16) * 16 + n % 16);
        assert(((n / 256) * 16 + (n / 16) % 16) * 16 + n % 16 == n) by (nonlinear_arith)
            requires 256 <= n < 4096;
    } else {
        lemma_hex_char_val(n / 4096);
        lemma_hex_char_val((n / 256) % 16);
        lemma_hex_char_val((n / 16) % 16);
        lemma_hex_char_val(n % 16);
        assert(s.drop_last() =~= seq![
            hex_char(n / 4096),
            hex_char((n / 256) % 16),
            hex_char((n / 16) % 16),
        ]);
        assert(s.drop_last().drop_last() =~= seq![hex_char(n / 4096), hex_char((n / 256) % 16)]);
        assert(s.drop_last().drop_last().drop_last() =~= seq![hex_char(n / 4096)]);
        assert(s.drop_last().drop_last().drop_last().drop_last() =~= Seq::<char>::empty());
        assert(hex_seq_val(s) == (((n / 4096) * 16 + (n / 256) % 16) * 16 + (n / 16) % 16) * 16
            + n % 16);
        assert((((n / 4096) * 16 + (n / 256) % 16) * 16 + (n / 16) % 16) * 16 + n % 16 == n)
            by (nonlinear_arith)
            requires 4096 <= n < 65536;
    }
}

pub proof fn lemma_hex2_upper_parse(n: int)
    requires
        0 <= n < 256,
    ensures
        parse_hex2(hex2_upper(n)) == Some(n),
{
    reveal_with_fuel(hex_seq_val, 4);
    let s = hex2_upper(n);
    lemma_hex_char_val(n / 16);
    lemma_hex_char_val(n % 16);
    assert(s.drop_last() =~= seq![hex_char_upper(n / 16)]);
    assert(s.drop_last().drop_last() =~= Seq::<char>::empty());
    assert(hex_seq_val(s) == (n / 16) * 16 + n % 16);
    assert((n / 16) * 16 + n % 16 == n);
}

// ---------------------------------------------------------------------------
// Finding and splitting on a separator
// ---------------------------------------------------------------------------

/// Index of the first occurrence of `sep` at or after `from`.
pub open spec fn find_from(s: Seq<char>, sep: char, from: int) -> Option<int>
    decreases s.len() - from,
{
    if from < 0 || from >= s.len() {
        None
    } else if s[from] == sep {
        Some(from)
    } else {
        find_from(s, sep, from + 1)
    }
}

pub proof fn lemma_find_from_props(s: Seq<char>, sep: char, from: int)
    requires
        0 <= from <= s.len(),
    ensures
        match find_from(s, sep, from) {
            Some(i) => from <= i < s.len() && s[i] == sep && forall|j: int|
                from <= j < i ==> s[j] != sep,
            None => forall|j: int| from <= j < s.len() ==> s[j] != sep,
        },
    decreases s.len() - from,
{
    if from < s.len() && s[from] != sep {
        lemma_find_from_props(s, sep, from + 1);
    }
}

/// The first occurrence of a separator known to sit at index `k`.
pub proof fn lemma_find_from_exact(s: Seq<char>, sep: char, k: int)
    requires
        0 <= k < s.len(),
        s[k] == sep,
        forall|j: int| 0 <= j < k ==> s[j] != sep,
    ensures
        find_from(s, sep, 0) == Some(k),
{
    lemma_find_from_props(s, sep, 0);
    match find_from(s, sep, 0) {
        Some(i) => {
            if i < k {
                assert(s[i] != sep);
            }
            if i > k {
                assert(s[k] != sep);
            }
        }
        None => {
            assert(s[k] != sep);
        }
    }
}

#[via_fn]
proof fn split_on_decreases(s: Seq<char>, sep: char) {
    match find_from(s, sep, 0) {
        Some(i) => {
            lemma_find_from_props(s, sep, 0);
        }
        None => {}
    }
}

/// The components of `s` between occurrences of `sep`; never empty.
pub open spec fn split_on(s: Seq<char>, sep: char) -> Seq<Seq<char>>
    decreases s.len()
        via split_on_decreases
{
    match find_from(s, sep, 0) {
        None => seq![s],
        Some(i) => seq![s.take(i)] + split_on(s.skip(i + 1), sep),
    }
}

pub proof fn lemma_split_no_sep(s: Seq<char>, sep: char)
    requires
        forall|j: int| 0 <= j < s.len() ==> s[j] != sep,
    ensures
        split_on(s, sep) == seq![s],
{
    lemma_find_from_props(s, sep, 0);
    match find_from(s, sep, 0) {
        Some(i) => {
            assert(s[i] != sep);
        }
        None => {}
    }
}

/// Splitting a sequence that starts with a separator-free chunk, then the
/// separator, then a remainder, yields the chunk followed by the split of
/// the remainder.
pub proof fn lemma_split_prepend(x: Seq<char>, sep: char, r: Seq<char>)
    requires
        forall|j: int| 0 <= j < x.len() ==> x[j] != sep,
    ensures
        split_on(x + seq![sep] + r, sep) == seq![x] + split_on(r, sep),
{
    let s = x + seq![sep] + r;
    assert(s[x.len() as int] == sep);
    assert(forall|j: int| 0 <= j < x.len() ==> s[j] == x[j] && s[j] != sep);
    lemma_find_from_exact(s, sep, x.len() as int);
    assert(s.take(x.len() as int) =~= x);
    assert(s.skip(x.len() as int + 1) =~= r);
}

/// A split with a single component means the separator never occurs, and
/// the component is the whole sequence.
pub proof fn lemma_split_len1(s: Seq<char>, sep: char)
    requires
        split_on(s, sep).len() == 1,
    ensures
        split_on(s, sep) == seq![s],
{
    lemma_find_from_props(s, sep, 0);
    match find_from(s, sep, 0) {
        Some(i) => {
            let rest = s.skip(i + 1);
            assert(split_on(rest, sep).len() >= 1);
            assert(split_on(s, sep).len() >= 2);
        }
        None => {}
    }
}

/// Splitting an eight-way join on its separator gives back the parts, when
/// none of them contains the separator.
#[verifier::rlimit(100)]
#[verifier::spinoff_prover]
pub proof fn lemma_split_join8(
    h0: Seq<char>,
    h1: Seq<char>,
    h2: Seq<char>,
    h3: Seq<char>,
    h4: Seq<char>,
    h5: Seq<char>,
    h6: Seq<char>,
    h7: Seq<char>,
    sep: char,
)
    requires
        forall|j: int| 0 <= j < h0.len() ==> h0[j] != sep,
        forall|j: int| 0 <= j < h1.len() ==> h1[j] != sep,
        forall|j: int| 0 <= j < h2.len() ==> h2[j] != sep,
        forall|j: int| 0 <= j < h3.len() ==> h3[j] != sep,
        forall|j: int| 0 <= j < h4.len() ==> h4[j] != sep,
        forall|j: int| 0 <= j < h5.len() ==> h5[j] != sep,
        forall|j: int| 0 <= j < h6.len() ==> h6[j] != sep,
        forall|j: int| 0 <= j < h7.len() ==> h7[j] != sep,
    ensures
        split_on(
            h0 + seq![sep] + h1 + seq![sep] + h2 + seq![sep] + h3 + seq![sep] + h4 + seq![sep]
                + h5 + seq![sep] + h6 + seq![sep] + h7,
            sep,
        ) == seq![h0, h1, h2, h3, h4, h5, h6, h7],
{
    let t6 = h6 + seq![sep] + h7;
    let t5 = h5 + seq![sep] + t6;
    let t4 = h4 + seq![sep] + t5;
    let t3 = h3 + seq![sep] + t4;
    let t2 = h2 + seq![sep] + t3;
    let t1 = h1 + seq![sep] + t2;
    let whole = h0 + seq![sep] + h1 + seq![sep] + h2 + seq![sep] + h3 + seq![sep] + h4
        + seq![sep] + h5 + seq![sep] + h6 + seq![sep] + h7;
    assert(whole =~= h0 + seq![sep] + t1);
    lemma_split_prepend(h0, sep, t1);
    lemma_split_prepend(h1, sep, t2);
    lemma_split_prepend(h2, sep, t3);
    lemma_split_prepend(h3, sep, t4);
    lemma_split_prepend(h4, sep, t5);
    lemma_split_prepend(h5, sep, t6);
    lemma_split_prepend(h6, sep, h7);
    lemma_split_no_sep(h7, sep);
    assert(split_on(whole, sep) =~= seq![h0, h1, h2, h3, h4, h5, h6, h7]);
}

/// Splitting a six-way join on its separator gives back the parts, when
/// none of them contains the separator.
#[verifier::rlimit(100)]
#[verifier::spinoff_prover]
pub proof fn lemma_split_join6(
    h0: Seq<char>,
    h1: Seq<char>,
    h2: Seq<char>,
    h3: Seq<char>,
    h4: Seq<char>,
    h5: Seq<char>,
    sep: char,
)
    requires
        forall|j: int| 0 <= j < h0.len() ==> h0[j] != sep,
        forall|j: int| 0 <= j < h1.len() ==> h1[j] != sep,
        forall|j: int| 0 <= j < h2.len() ==> h2[j] != sep,
        forall|j: int| 0 <= j < h3.len() ==> h3[j] != sep,
        forall|j: int| 0 <= j < h4.len() ==> h4[j] != sep,
        forall|j: int| 0 <= j < h5.len() ==> h5[j] != sep,
    ensures
        split_on(
            h0 + seq![sep] + h1 + seq![sep] + h2 + seq![sep] + h3 + seq![sep] + h4 + seq![sep]
                + h5,
            sep,
        ) == seq![h0, h1, h2, h3, h4, h5],
{
    let t4 = h4 + seq![sep] + h5;
    let t3 = h3 + seq![sep] + t4;
    let t2 = h2 + seq![sep] + t3;
    let t1 = h1 + seq![sep] + t2;
    let whole = h0 + seq![sep] + h1 + seq![sep] + h2 + seq![sep] + h3 + seq![sep] + h4
        + seq![sep] + h5;
    assert(whole =~= h0 + seq![sep] + t1);
    lemma_split_prepend(h0, sep, t1);
    lemma_split_prepend(h1, sep, t2);
    lemma_split_prepend(h2, sep, t3);
    lemma_split_prepend(h3, sep, t4);
    lemma_split_prepend(h4, sep, h5);
    lemma_split_no_sep(h5, sep);
    assert(split_on(whole, sep) =~= seq![h0, h1, h2, h3, h4, h5]);
}

// ---------------------------------------------------------------------------
// Executable counterparts
// ---------------------------------------------------------------------------

/// Finds the first occurrence of `sep` at or after `from`.
pub fn find_char(s: &str, sep: char, from: usize) -> (r: Option<usize>)
    requires
        from <= s@.len(),
    ensures
        match r {
            Some(i) => find_from(s@, sep, from as int) == Some(i as int) && from <= i < s@.len(),
            None => find_from(s@, sep, from as int).is_none(),
        },
{
    let n = s.unicode_len();
    let mut i: usize = from;
    while i < n
        invariant
            from <= i <= n,
            n == s@.len(),
            find_from(s@, sep, from as int) == find_from(s@, sep, i as int),
        decreases n - i,
    {
        if s.get_char(i) == sep {
            return Some(i);
        }
        i += 1;
    }
    None
}

/// Splits a string on a separator character; the result is never empty.
pub fn split_char<'a>(s: &'a str, sep: char) -> (parts: Vec<&'a str>)
    ensures
        parts.deep_view() == split_on(s@, sep),
        parts.len() >= 1,
{
    let n = s.unicode_len();
    let mut parts: Vec<&'a str> = Vec::new();
    let mut pos: usize = 0;
    proof {
        assert(parts.deep_view() =~= Seq::<Seq<char>>::empty());
        assert(s@.skip(0) =~= s@);
        assert(parts.deep_view() + split_on(s@.skip(0), sep) =~= split_on(s@, sep));
    }
    loop
        invariant
            pos <= n,
            n == s@.len(),
            parts.deep_view() + split_on(s@.skip(pos as int), sep) == split_on(s@, sep),
        decreases n - pos,
    {
        let ghost rest = s@.skip(pos as int);
        match find_char(s, sep, pos) {
            Some(i) => {
                let piece = s.substring_char(pos, i);
                proof {
                    lemma_find_from_props(s@, sep, pos as int);
                    let x = s@.subrange(pos as int, i as int);
                    assert(rest =~= x + seq![sep] + s@.skip(i + 1));
                    lemma_split_prepend(x, sep, s@.skip(i + 1));
                    assert((parts.deep_view() + seq![x]) + split_on(s@.skip(i + 1), sep)
                        =~= parts.deep_view() + split_on(rest, sep));
                }
                parts.push(piece);
                pos = i + 1;
                proof {
                    assert(parts.deep_view() =~= parts.deep_view());
                }
            }
            None => {
                let piece = s.substring_char(pos, n);
                proof {
                    lemma_find_from_props(s@, sep, pos as int);
                    assert(forall|j: int| 0 <= j < rest.len() ==> rest[j] != sep);
                    lemma_split_no_sep(rest, sep);
                    assert(rest =~= s@.subrange(pos as int, n as int));
                }
                parts.push(piece);
                proof {
                    assert(parts.deep_view() =~= parts.deep_view().drop_last() + seq![rest]);
                }
                return parts;
            }
        }
    }
}

/// Parses one to three decimal digits as a byte value.
pub fn dec_u8_of(s: &str) -> (r: Option<u8>)
    ensures
        match r {
            Some(b) => parse_u8_dec(s@) == Some(b as int),
            None => parse_u8_dec(s@).is_none(),
        },
{
    let n = s.unicode_len();
    if n < 1 || n > 3 {
        return None;
    }
    let mut acc: u32 = 0;
    let mut i: usize = 0;
    while i < n
        invariant
            i <= n,
            1 <= n <= 3,
            n == s@.len(),
            forall|j: int| 0 <= j < i ==> is_dec(s@[j]),
            acc == dec_seq_val(s@.take(i as int)),
            acc < 1000,
        decreases n - i,
    {
        let c = s.get_char(i);
        let v = c as u32;
        if v < 48 || v > 57 {
            proof {
                assert(!is_dec(s@[i as int]));
            }
            return None;
        }
        proof {
            assert(s@.take(i + 1).drop_last() =~= s@.take(i as int));
            assert(s@.take(i + 1).last() == s@[i as int]);
            lemma_dec_seq_val_bound(s@.take(i + 1));
        }
        acc = acc * 10 + (v - 48);
        i += 1;
    }
    proof {
        assert(s@.take(n as int) =~= s@);
    }
    if acc < 256 {
        Some(acc as u8)
    } else {
        None
    }
}

/// Parses one to four hexadecimal digits as a sixteen-bit value.
pub fn hex_u16_of(s: &str) -> (r: Option<u16>)
    ensures
        match r {
            Some(b) => parse_u16_hex(s@) == Some(b as int),
            None => parse_u16_hex(s@).is_none(),
        },
{
    let n = s.unicode_len();
    if n < 1 || n > 4 {
        return None;
    }
    let mut acc: u32 = 0;
    let mut i: usize = 0;
    while i < n
        invariant
            i <= n,
            1 <= n <= 4,
            n == s@.len(),
            forall|j: int| 0 <= j < i ==> is_hex(s@[j]),
            acc == hex_seq_val(s@.take(i as int)),
            acc < 65536,
        decreases n - i,
    {
        let c = s.get_char(i);
        let v = c as u32;
        let d: u32 = if 48 <= v && v <= 57 {
            v - 48
        } else if 97 <= v && v <= 102 {
            v - 87
        } else if 65 <= v && v <= 70 {
            v - 55
        } else {
            proof {
                assert(!is_hex(s@[i as int]));
            }
            return None;
        };
        proof {
            assert(is_hex(s@[i as int]));
            assert(d == hex_val(s@[i as int]));
            assert(s@.take(i + 1).drop_last() =~= s@.take(i as int));
            assert(s@.take(i + 1).last() == s@[i as int]);
            lemma_hex_seq_val_bound(s@.take(i + 1));
        }
        acc = acc * 16 + d;
        i += 1;
    }
    proof {
        assert(s@.take(n as int) =~= s@);
    }
    Some(acc as u16)
}

/// Parses exactly two hexadecimal digits as a byte value.
pub fn hex2_of(s: &str) -> (r: Option<u8>)
    ensures
        match r {
            Some(b) => parse_hex2(s@) == Some(b as int),
            None => parse_hex2(s@).is_none(),
        },
{
    if s.unicode_len() != 2 {
        return None;
    }
    match hex_u16_of(s) {
        Some(v) => {
            proof {
                lemma_hex_seq_val_bound(s@);
            }
            Some(v as u8)
        }
        None => None,
    }
}

/// The one-character string for a decimal digit.
pub fn dec_char_str(d: u8) -> (r: &'static str)
    requires
        d < 10,
    ensures
        r@ =~= seq![dec_char(d as int)],
{
    match d {
        0 => {
            proof { reveal_strlit("0"); }
            "0"
        }
        1 => {
            proof { reveal_strlit("1"); }
            "1"
        }
        2 => {
            proof { reveal_strlit("2"); }
            "2"
        }
        3 => {
            proof { reveal_strlit("3"); }
            "3"
        }
        4 => {
            proof { reveal_strlit("4"); }
            "4"
        }
        5 => {
            proof { reveal_strlit("5"); }
            "5"
        }
        6 => {
            proof { reveal_strlit("6"); }
            "6"
        }
        7 => {
            proof { reveal_strlit("7"); }
            "7"
        }
        8 => {
            proof { reveal_strlit("8"); }
            "8"
        }
        _ => {
            proof { reveal_strlit("9"); }
            "9"
        }
    }
}

/// The one-character string for a lowercase hexadecimal digit.
pub fn hex_char_str(d: u8) -> (r: &'static str)
    requires
        d < 16,
    ensures
        r@ =~= seq![hex_char(d as int)],
{
    if d < 10 {
        let r = dec_char_str(d);
        r
    } else {
        match d {
            10 => {
                proof { reveal_strlit("a"); }
                "a"
            }
            11 => {
                proof { reveal_strlit("b"); }
                "b"
            }
            12 => {
                proof { reveal_strlit("c"); }
                "c"
            }
            13 => {
                proof { reveal_strlit("d"); }
                "d"
            }
            14 => {
                proof { reveal_strlit("e"); }
                "e"
            }
            _ => {
                proof { reveal_strlit("f"); }
                "f"
            }
        }
    }
}

/// The one-character string for an uppercase hexadecimal digit.
pub fn hex_char_upper_str(d: u8) -> (r: &'static str)
    requires
        d < 16,
    ensures
        r@ =~= seq![hex_char_upper(d as int)],
{
    if d < 10 {
        let r = dec_char_str(d);
        r
    } else {
        match d {
            10 => {
                proof { reveal_strlit("A"); }
                "A"
            }
            11 => {
                proof { reveal_strlit("B"); }
                "B"
            }
            12 => {
                proof { reveal_strlit("C"); }
                "C"
            }
            13 => {
                proof { reveal_strlit("D"); }
                "D"
            }
            14 => {
                proof { reveal_strlit("E"); }
                "E"
            }
            _ => {
                proof { reveal_strlit("F"); }
                "F"
            }
        }
    }
}

/// Appends the minimal decimal rendering of a byte.
pub fn push_u8_dec(out: &mut String, n: u8)
    ensures
        final(out)@ == old(out)@ + u8_dec(n as int),
{
    proof {
        reveal(u8_dec);
    }
    if n < 10 {
        out.append(dec_char_str(n));
        proof {
            assert(final(out)@ =~= old(out)@ + u8_dec(n as int));
        }
    } else if n < 100 {
        out.append(dec_char_str(n / 10));
        out.append(dec_char_str(n % 10));
        proof {
            assert(final(out)@ =~= old(out)@ + u8_dec(n as int));
        }
    } else {
        out.append(dec_char_str(n / 100));
        out.append(dec_char_str((n / 10) % 10));
        out.append(dec_char_str(n % 10));
        proof {
            assert(final(out)@ =~= old(out)@ + u8_dec(n as int));
        }
    }
}

/// Appends the minimal lowercase hexadecimal rendering of a sixteen-bit value.
pub fn push_u16_hex(out: &mut String, n: u16)
    ensures
        final(out)@ == old(out)@ + u16_hex(n as int),
{
    proof {
        reveal(u16_hex);
    }
    if n < 16 {
        out.append(hex_char_str(n as u8));
        proof {
            assert(final(out)@ =~= old(out)@ + u16_hex(n as int));
        }
    } else if n < 256 {
        out.append(hex_char_str((n / 16) as u8));
        out.append(hex_char_str((n % 16) as u8));
        proof {
            assert(final(out)@ =~= old(out)@ + u16_hex(n as int));
        }
    } else if n < 4096 {
        out.append(hex_char_str((n / 256) as u8));
        out.append(hex_char_str(((n / 16) % 16) as u8));
        out.append(hex_char_str((n % 16) as u8));
        proof {
            assert(final(out)@ =~= old(out)@ + u16_hex(n as int));
        }
    } else {
        out.append(hex_char_str((n / 4096) as u8));
        out.append(hex_char_str(((n / 256) % 16) as u8));
        out.append(hex_char_str(((n / 16) % 16) as u8));
        out.append(hex_char_str((n % 16) as u8));
        proof {
            assert(final(out)@ =~= old(out)@ + u16_hex(n as int));
        }
    }
}

/// Appends the minimal decimal rendering of an unsigned value.
pub fn push_usize_dec(out: &mut String, n: usize)
    ensures
        final(out)@ == old(out)@ + nat_dec(n as int),
    decreases n,
{
    if n < 10 {
        out.append(dec_char_str(n as u8));
        proof {
            assert(final(out)@ =~= old(out)@ + nat_dec(n as int));
        }
    } else {
        push_usize_dec(out, n / 10);
        out.append(dec_char_str((n % 10) as u8));
        proof {
            assert(final(out)@ =~= old(out)@ + nat_dec(n as int));
        }
    }
}

/// Appends the two-digit uppercase hexadecimal rendering of a byte.
pub fn push_hex2_upper(out: &mut String, n: u8)
    ensures
        final(out)@ == old(out)@ + hex2_upper(n as int),
{
    out.append(hex_char_upper_str(n / 16));
    out.append(hex_char_upper_str(n % 16));
    proof {
        assert(final(out)@ =~= old(out)@ + hex2_upper(n as int));
    }
}

} // verus!
