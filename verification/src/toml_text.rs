//! The textual configuration format: rendering and scanning of the value
//! grammar the two config files use. Values are quoted strings without
//! escapes, unsigned decimals, fixed-point decimals with a three-digit
//! fraction (thousandths), booleans, bracketed pairs of decimals, and
//! bracketed lists of quoted strings. Each `*_rep` spec function gives the
//! canonical text of a value; each `scan_*` spec function reads one value at
//! a cursor; the lemmas prove that scanning the canonical text yields the
//! value back.

use vstd::prelude::*;

verus! {

/// An ASCII decimal digit.
pub open spec fn is_digit(c: char) -> bool {
    48 <= c as u32 <= 57
}

/// The numeric value of a digit character.
pub open spec fn digit_val(c: char) -> int {
    c as u32 - 48
}

/// The character for a digit value.
pub open spec fn digit_char(d: int) -> char {
    if d == 0 {
        '0'
    } else if d == 1 {
        '1'
    } else if d == 2 {
        '2'
    } else if d == 3 {
        '3'
    } else if d == 4 {
        '4'
    } else if d == 5 {
        '5'
    } else if d == 6 {
        '6'
    } else if d == 7 {
        '7'
    } else if d == 8 {
        '8'
    } else {
        '9'
    }
}

/// A character that may stand unescaped inside a quoted string: printable
/// ASCII, no quote, no backslash.
pub open spec fn is_str_char(c: char) -> bool {
    32 <= c as u32 <= 126 && c != '"' && c != '\\'
}

/// A character of a bare table key.
pub open spec fn is_key_char(c: char) -> bool {
    is_digit(c) || (97 <= c as u32 <= 122) || (65 <= c as u32 <= 90) || c == '-' || c == '_'
}

/// A string value the format can carry verbatim.
pub open spec fn str_ok(s: Seq<char>) -> bool {
    forall|k: int| 0 <= k < s.len() ==> is_str_char(#[trigger] s[k])
}

/// A usable bare key: nonempty, key characters only.
pub open spec fn key_ok(s: Seq<char>) -> bool {
    s.len() >= 1 && forall|k: int| 0 <= k < s.len() ==> is_key_char(#[trigger] s[k])
}

/// The canonical decimal text of a number.
pub open spec fn dec_rep(n: nat) -> Seq<char>
    decreases n,
{
    if n < 10 {
        seq![digit_char(n as int)]
    } else {
        dec_rep(n / 10).push(digit_char((n % 10) as int))
    }
}

/// A string value in quotes.
pub open spec fn quoted(s: Seq<char>) -> Seq<char> {
    seq!['"'] + s + seq!['"']
}

/// The three-digit fraction of a thousandths value below 1000.
pub open spec fn frac3(f: nat) -> Seq<char> {
    seq![digit_char(f as int / 100), digit_char((f as int / 10) % 10), digit_char(f as int % 10)]
}

/// The canonical text of a fixed-point value counted in thousandths:
/// the whole part, a point, and exactly three fraction digits.
pub open spec fn milli_rep(m: nat) -> Seq<char> {
    dec_rep(m / 1000) + seq!['.'] + frac3(m % 1000)
}

/// The text of a boolean.
pub open spec fn bool_rep(b: bool) -> Seq<char> {
    if b {
        seq!['t', 'r', 'u', 'e']
    } else {
        seq!['f', 'a', 'l', 's', 'e']
    }
}

/// The text of a bracketed pair of numbers.
pub open spec fn pair_rep(a: nat, b: nat) -> Seq<char> {
    seq!['['] + dec_rep(a) + seq![',', ' '] + dec_rep(b) + seq![']']
}

/// The comma-separated quoted items of a string list.
pub open spec fn strlist_inner(xs: Seq<Seq<char>>) -> Seq<char>
    decreases xs.len(),
{
    if xs.len() == 0 {
        Seq::empty()
    } else if xs.len() == 1 {
        quoted(xs[0])
    } else {
        quoted(xs[0]) + seq![',', ' '] + strlist_inner(xs.skip(1))
    }
}

/// The text of a bracketed list of quoted strings.
pub open spec fn strlist_rep(xs: Seq<Seq<char>>) -> Seq<char> {
    seq!['['] + strlist_inner(xs) + seq![']']
}

/// Fixed text at the cursor: the cursor past it, or nothing.
pub open spec fn expect_sp(s: Seq<char>, i: nat, lit: Seq<char>) -> Option<nat> {
    if i + lit.len() <= s.len() && s.subrange(i as int, (i + lit.len()) as int) == lit {
        Some((i + lit.len()) as nat)
    } else {
        None
    }
}

/// Accumulate decimal digits from the cursor; stops at the first non-digit.
/// Overflow past `u64` fails the scan.
pub open spec fn scan_digits(s: Seq<char>, i: nat, acc: u64) -> Option<(u64, nat)>
    decreases s.len() - i,
{
    if i < s.len() && is_digit(s[i as int]) {
        if acc * 10 + digit_val(s[i as int]) <= u64::MAX {
            scan_digits(s, (i + 1) as nat, (acc * 10 + digit_val(s[i as int])) as u64)
        } else {
            None
        }
    } else {
        Some((acc, i))
    }
}

/// A number: at least one digit at the cursor.
pub open spec fn scan_num_sp(s: Seq<char>, i: nat) -> Option<(u64, nat)> {
    if i < s.len() && is_digit(s[i as int]) {
        scan_digits(s, i, 0)
    } else {
        None
    }
}

/// String content after an opening quote, up to the closing quote.
pub open spec fn scan_str_chars(s: Seq<char>, i: nat) -> Option<(Seq<char>, nat)>
    decreases s.len() - i,
{
    if i >= s.len() {
        None
    } else if s[i as int] == '"' {
        Some((Seq::empty(), (i + 1) as nat))
    } else if is_str_char(s[i as int]) {
        match scan_str_chars(s, (i + 1) as nat) {
            Some((t, j)) => Some((seq![s[i as int]] + t, j)),
            None => None,
        }
    } else {
        None
    }
}

/// A quoted string value at the cursor.
pub open spec fn scan_quoted_sp(s: Seq<char>, i: nat) -> Option<(Seq<char>, nat)> {
    if i < s.len() && s[i as int] == '"' {
        scan_str_chars(s, (i + 1) as nat)
    } else {
        None
    }
}

/// A boolean value at the cursor.
pub open spec fn scan_bool_sp(s: Seq<char>, i: nat) -> Option<(bool, nat)> {
    match expect_sp(s, i, bool_rep(true)) {
        Some(j) => Some((true, j)),
        None => match expect_sp(s, i, bool_rep(false)) {
            Some(j) => Some((false, j)),
            None => None,
        },
    }
}

/// The first position at or after `i` that does not hold a digit.
pub open spec fn digits_end(s: Seq<char>, i: nat) -> nat
    decreases s.len() - i,
{
    if i < s.len() && is_digit(s[i as int]) {
        digits_end(s, (i + 1) as nat)
    } else {
        i
    }
}

/// The thousandths carried by the fraction digits at `i ..< e`: the first
/// three count, any further digits are below the carried precision.
pub open spec fn frac_val(s: Seq<char>, i: nat, e: nat) -> int {
    100 * digit_val(s[i as int]) + (if i + 1 < e {
        10 * digit_val(s[i + 1int])
    } else {
        0int
    }) + (if i + 2 < e {
        digit_val(s[i + 2int])
    } else {
        0int
    })
}

/// A fixed-point value at the cursor: a number, then an optional fraction of
/// one or more digits (a bare number reads as a whole value).
pub open spec fn scan_milli_sp(s: Seq<char>, i: nat) -> Option<(u64, nat)> {
    match scan_num_sp(s, i) {
        None => None,
        Some((v, j)) => {
            if j < s.len() && s[j as int] == '.' {
                if j + 1 < s.len() && is_digit(s[j + 1int]) {
                    let e = digits_end(s, (j + 1) as nat);
                    let f = frac_val(s, (j + 1) as nat, e);
                    if v * 1000 + f <= u64::MAX {
                        Some(((v * 1000 + f) as u64, e))
                    } else {
                        None
                    }
                } else {
                    None
                }
            } else {
                if v * 1000 <= u64::MAX {
                    Some(((v * 1000) as u64, j))
                } else {
                    None
                }
            }
        },
    }
}

/// A bracketed pair of numbers at the cursor, each fitting `u32`.
pub open spec fn scan_pair_sp(s: Seq<char>, i: nat) -> Option<((u32, u32), nat)> {
    match expect_sp(s, i, seq!['[']) {
        None => None,
        Some(j0) => match scan_num_sp(s, j0) {
            None => None,
            Some((a, j1)) => {
                if a <= u32::MAX {
                    match expect_sp(s, j1, seq![',', ' ']) {
                        None => None,
                        Some(j2) => match scan_num_sp(s, j2) {
                            None => None,
                            Some((b, j3)) => {
                                if b <= u32::MAX {
                                    match expect_sp(s, j3, seq![']']) {
                                        None => None,
                                        Some(j4) => Some(((a as u32, b as u32), j4)),
                                    }
                                } else {
                                    None
                                }
                            },
                        },
                    }
                } else {
                    None
                }
            },
        },
    }
}

/// Items of a nonempty string list from the cursor, up to and past the
/// closing bracket.
pub open spec fn scan_items(s: Seq<char>, i: nat, acc: Seq<Seq<char>>) -> Option<
    (Seq<Seq<char>>, nat),
>
    decreases s.len() - i,
{
    match scan_quoted_sp(s, i) {
        None => None,
        Some((t, j)) => {
            let acc2 = acc.push(t);
            if j < s.len() && s[j as int] == ']' {
                Some((acc2, (j + 1) as nat))
            } else if j + 2 <= s.len() && s[j as int] == ',' && s[j + 1int] == ' ' && i < j + 2 {
                scan_items(s, (j + 2) as nat, acc2)
            } else {
                None
            }
        },
    }
}

/// A bracketed list of quoted strings at the cursor.
pub open spec fn scan_strlist_sp(s: Seq<char>, i: nat) -> Option<(Seq<Seq<char>>, nat)> {
    if i + 2 <= s.len() && s[i as int] == '[' && s[i + 1int] == ']' {
        Some((Seq::empty(), (i + 2) as nat))
    } else if i < s.len() && s[i as int] == '[' {
        scan_items(s, (i + 1) as nat, Seq::empty())
    } else {
        None
    }
}

/// A bare key at the cursor: its characters and the cursor past them.
pub open spec fn scan_key(s: Seq<char>, i: nat) -> (Seq<char>, nat)
    decreases s.len() - i,
{
    if i < s.len() && is_key_char(s[i as int]) {
        let (t, j) = scan_key(s, (i + 1) as nat);
        (seq![s[i as int]] + t, j)
    } else {
        (Seq::empty(), i)
    }
}

/// A piece of text sitting at an offset inside a known stretch of `s` sits
/// at the shifted position in `s` itself.
pub proof fn lemma_piece_at(s: Seq<char>, i: nat, rep: Seq<char>, off: nat, piece: Seq<char>)
    requires
        i + rep.len() <= s.len(),
        s.subrange(i as int, (i + rep.len()) as int) == rep,
        off + piece.len() <= rep.len(),
        rep.subrange(off as int, (off + piece.len()) as int) == piece,
    ensures
        s.subrange((i + off) as int, (i + off + piece.len()) as int) == piece,
{
    assert forall|k: int| 0 <= k < piece.len() implies s.subrange(
        (i + off) as int,
        (i + off + piece.len()) as int,
    )[k] == piece[k] by {
        assert(s.subrange(i as int, (i + rep.len()) as int)[off + k] == s[i + off + k]);
        assert(rep.subrange(off as int, (off + piece.len()) as int)[k] == rep[off + k]);
    }
    assert(s.subrange((i + off) as int, (i + off + piece.len()) as int) =~= piece);
}

/// A stretch of `s` known to be a concatenation splits into its two parts.
pub proof fn lemma_split_two(s: Seq<char>, i: nat, a: Seq<char>, b: Seq<char>)
    requires
        i + a.len() + b.len() <= s.len(),
        s.subrange(i as int, (i + a.len() + b.len()) as int) == a + b,
    ensures
        s.subrange(i as int, (i + a.len()) as int) == a,
        s.subrange((i + a.len()) as int, (i + a.len() + b.len()) as int) == b,
{
    assert((a + b).subrange(0, a.len() as int) =~= a);
    lemma_piece_at(s, i, a + b, 0, a);
    assert((a + b).subrange(a.len() as int, (a.len() + b.len()) as int) =~= b);
    lemma_piece_at(s, i, a + b, a.len(), b);
}

/// The value of a digit string folded onto an accumulator, most significant
/// digit first.
pub open spec fn digits_val(d: Seq<char>, a: int) -> int
    decreases d.len(),
{
    if d.len() == 0 {
        a
    } else {
        digits_val(d.skip(1), a * 10 + digit_val(d[0]))
    }
}

/// The fold stays within `u64` at every step.
pub open spec fn digits_fit(d: Seq<char>, a: int) -> bool
    decreases d.len(),
{
    if d.len() == 0 {
        true
    } else {
        a * 10 + digit_val(d[0]) <= u64::MAX && digits_fit(d.skip(1), a * 10 + digit_val(d[0]))
    }
}

/// Every character is a digit.
pub open spec fn all_digits(d: Seq<char>) -> bool {
    forall|k: int| 0 <= k < d.len() ==> is_digit(#[trigger] d[k])
}

/// Appending a digit multiplies the folded value by ten and adds it.
pub proof fn lemma_digits_val_push(d: Seq<char>, c: char, a: int)
    ensures
        digits_val(d.push(c), a) == digits_val(d, a) * 10 + digit_val(c),
    decreases d.len(),
{
    if d.len() == 0 {
        assert(d.push(c)[0] == c);
        assert(d.push(c).skip(1) =~= Seq::<char>::empty());
        assert(digits_val(d.push(c), a) == digits_val(Seq::<char>::empty(), a * 10 + digit_val(c)));
        assert(digits_val(Seq::<char>::empty(), a * 10 + digit_val(c)) == a * 10 + digit_val(c));
        assert(digits_val(d, a) == a);
    } else {
        assert(d.push(c)[0] == d[0]);
        assert(d.push(c).skip(1) =~= d.skip(1).push(c));
        lemma_digits_val_push(d.skip(1), c, a * 10 + digit_val(d[0]));
        assert(digits_val(d.push(c), a) == digits_val(d.skip(1).push(c), a * 10 + digit_val(d[0])));
        assert(digits_val(d, a) == digits_val(d.skip(1), a * 10 + digit_val(d[0])));
    }
}

/// Appending a digit keeps the fold in range exactly when it was in range
/// and the new value still fits.
pub proof fn lemma_digits_fit_push(d: Seq<char>, c: char, a: int)
    ensures
        digits_fit(d.push(c), a) == (digits_fit(d, a) && digits_val(d, a) * 10 + digit_val(c)
            <= u64::MAX),
    decreases d.len(),
{
    if d.len() == 0 {
        assert(d.push(c)[0] == c);
        assert(d.push(c).skip(1) =~= Seq::<char>::empty());
        assert(digits_fit(d.push(c), a) == (a * 10 + digit_val(c) <= u64::MAX && digits_fit(
            Seq::<char>::empty(),
            a * 10 + digit_val(c),
        )));
        assert(digits_fit(Seq::<char>::empty(), a * 10 + digit_val(c)));
        assert(digits_fit(d, a));
        assert(digits_val(d, a) == a);
    } else {
        assert(d.push(c)[0] == d[0]);
        assert(d.push(c).skip(1) =~= d.skip(1).push(c));
        lemma_digits_fit_push(d.skip(1), c, a * 10 + digit_val(d[0]));
        lemma_digits_val_push(d.skip(1), c, a * 10 + digit_val(d[0]));
        assert(digits_fit(d.push(c), a) == (a * 10 + digit_val(d[0]) <= u64::MAX && digits_fit(
            d.skip(1).push(c),
            a * 10 + digit_val(d[0]),
        )));
        assert(digits_fit(d, a) == (a * 10 + digit_val(d[0]) <= u64::MAX && digits_fit(
            d.skip(1),
            a * 10 + digit_val(d[0]),
        )));
        assert(digits_val(d, a) == digits_val(d.skip(1), a * 10 + digit_val(d[0])));
    }
}

/// Scanning a digit string with a non-digit (or the end) after it yields the
/// folded value and stops right there.
pub proof fn lemma_scan_digits(s: Seq<char>, i: nat, d: Seq<char>, a: u64)
    requires
        i + d.len() <= s.len(),
        s.subrange(i as int, (i + d.len()) as int) == d,
        all_digits(d),
        digits_fit(d, a as int),
        i + d.len() == s.len() || !is_digit(s[(i + d.len()) as int]),
    ensures
        0 <= digits_val(d, a as int) <= u64::MAX,
        scan_digits(s, i, a) == Some((digits_val(d, a as int) as u64, (i + d.len()) as nat)),
    decreases d.len(),
{
    if d.len() == 0 {
    } else {
        assert(s.subrange(i as int, (i + d.len()) as int)[0] == s[i as int]);
        let a2 = (a * 10 + digit_val(d[0])) as u64;
        assert(s.subrange((i + 1) as int, (i + d.len()) as int) =~= d.skip(1));
        lemma_scan_digits(s, (i + 1) as nat, d.skip(1), a2);
    }
}

/// The canonical decimal text is all digits and nonempty.
pub proof fn lemma_dec_rep_digits(n: nat)
    ensures
        dec_rep(n).len() >= 1,
        all_digits(dec_rep(n)),
    decreases n,
{
    if n >= 10 {
        lemma_dec_rep_digits(n / 10);
        assert(forall|k: int|
            0 <= k < dec_rep(n).len() ==> is_digit(#[trigger] dec_rep(n)[k])) by {
            assert(forall|k: int|
                0 <= k < dec_rep(n / 10).len() ==> is_digit(#[trigger] dec_rep(n / 10)[k]));
            assert(dec_rep(n) == dec_rep(n / 10).push(digit_char((n % 10) as int)));
            assert(is_digit(digit_char((n % 10) as int)));
        }
    }
}

/// Folding the canonical decimal text of `n` from zero gives back `n`, and
/// never leaves `u64`.
pub proof fn lemma_dec_rep_val(n: u64)
    ensures
        digits_val(dec_rep(n as nat), 0) == n,
        digits_fit(dec_rep(n as nat), 0),
    decreases n,
{
    broadcast use vstd::arithmetic::div_mod::lemma_fundamental_div_mod;

    if n < 10 {
        let c = digit_char(n as int);
        assert(seq![c][0] == c);
        assert(seq![c].skip(1) =~= Seq::<char>::empty());
        assert(digits_val(seq![c], 0) == digits_val(seq![c].skip(1), digit_val(c)));
        assert(digits_val(Seq::<char>::empty(), digit_val(c)) == digit_val(c));
        assert(digit_val(c) == n);
        assert(digits_fit(seq![c], 0) == (digit_val(c) <= u64::MAX && digits_fit(
            seq![c].skip(1),
            digit_val(c),
        )));
        assert(digits_fit(Seq::<char>::empty(), digit_val(c)));
    } else {
        lemma_dec_rep_val(n / 10);
        let d = dec_rep((n / 10) as nat);
        let c = digit_char((n % 10) as int);
        lemma_digits_val_push(d, c, 0);
        lemma_digits_fit_push(d, c, 0);
        assert(digit_val(c) == n % 10);
        assert((n / 10) * 10 + n % 10 == n);
    }
}

/// Round trip of a number: scanning its canonical text, with a non-digit or
/// the end after it, yields the number and the cursor past the text.
pub proof fn lemma_scan_num_rt(s: Seq<char>, i: nat, n: u64)
    requires
        i + dec_rep(n as nat).len() <= s.len(),
        s.subrange(i as int, (i + dec_rep(n as nat).len()) as int) == dec_rep(n as nat),
        i + dec_rep(n as nat).len() == s.len() || !is_digit(
            s[(i + dec_rep(n as nat).len()) as int],
        ),
    ensures
        scan_num_sp(s, i) == Some((n, (i + dec_rep(n as nat).len()) as nat)),
{
    lemma_dec_rep_digits(n as nat);
    lemma_dec_rep_val(n);
    assert(s.subrange(i as int, (i + dec_rep(n as nat).len()) as int)[0] == s[i as int]);
    lemma_scan_digits(s, i, dec_rep(n as nat), 0);
}

/// Scanning string content: the characters up to an unescaped quote come
/// back verbatim, with the cursor past the quote.
pub proof fn lemma_scan_str_chars(s: Seq<char>, i: nat, e: nat)
    requires
        i <= e,
        e < s.len(),
        s[e as int] == '"',
        forall|k: int| i <= k < e ==> is_str_char(#[trigger] s[k]),
    ensures
        scan_str_chars(s, i) == Some((s.subrange(i as int, e as int), (e + 1) as nat)),
    decreases e - i,
{
    if i == e {
        assert(s.subrange(i as int, e as int) =~= Seq::<char>::empty());
    } else {
        lemma_scan_str_chars(s, (i + 1) as nat, e);
        assert(is_str_char(s[i as int]));
        assert(s[i as int] != '"');
        assert(seq![s[i as int]] + s.subrange(i as int + 1, e as int) =~= s.subrange(i as int, e as int));
    }
}

/// Round trip of a quoted string value.
pub proof fn lemma_scan_quoted_rt(s: Seq<char>, i: nat, t: Seq<char>)
    requires
        str_ok(t),
        i + t.len() + 2 <= s.len(),
        s.subrange(i as int, (i + t.len() + 2) as int) == quoted(t),
    ensures
        scan_quoted_sp(s, i) == Some((t, (i + t.len() + 2) as nat)),
{
    let q = quoted(t);
    assert(forall|k: int|
        0 <= k < q.len() ==> s.subrange(i as int, (i + t.len() + 2) as int)[k] == #[trigger] s[
            i + k
        ]);
    assert(s[i as int] == q[0]);
    assert(s[(i + t.len() + 1) as int] == q[t.len() as int + 1]);
    assert(q[0] == '"');
    assert(q[t.len() as int + 1] == '"');
    assert(q.subrange(1, (1 + t.len()) as int) =~= t);
    lemma_piece_at(s, i, q, 1, t);
    assert forall|k: int| i + 1 <= k < i + 1 + t.len() implies is_str_char(#[trigger] s[k]) by {
        assert(s.subrange((i + 1) as int, (i + 1 + t.len()) as int)[k - i - 1] == s[k]);
        assert(is_str_char(t[k - i - 1]));
    }
    lemma_scan_str_chars(s, (i + 1) as nat, (i + 1 + t.len()) as nat);
    assert(s.subrange((i + 1) as int, (i + 1 + t.len()) as int) == t);
}

/// Round trip of a boolean value.
pub proof fn lemma_scan_bool_rt(s: Seq<char>, i: nat, b: bool)
    requires
        i + bool_rep(b).len() <= s.len(),
        s.subrange(i as int, (i + bool_rep(b).len()) as int) == bool_rep(b),
    ensures
        scan_bool_sp(s, i) == Some((b, (i + bool_rep(b).len()) as nat)),
{
    assert(s.subrange(i as int, (i + bool_rep(b).len()) as int)[0] == s[i as int]);
    if b {
        assert(expect_sp(s, i, bool_rep(true)) == Some((i + 4) as nat));
    } else {
        assert(s[i as int] == 'f');
        if i + 4 <= s.len() {
            assert(s.subrange(i as int, i as int + 4)[0] == s[i as int]);
            assert(s.subrange(i as int, i as int + 4) != bool_rep(true));
        }
        assert(expect_sp(s, i, bool_rep(true)) is None);
        assert(expect_sp(s, i, bool_rep(false)) == Some((i + 5) as nat));
    }
}

/// All positions before the digit run's end hold digits, and the run ends
/// at a non-digit or the end of the text.
pub proof fn lemma_digits_end_props(s: Seq<char>, i: nat)
    requires
        i <= s.len(),
    ensures
        i <= digits_end(s, i) <= s.len(),
        forall|k: int| i <= k < digits_end(s, i) ==> is_digit(s[k]),
        digits_end(s, i) == s.len() || !is_digit(s[digits_end(s, i) as int]),
    decreases s.len() - i,
{
    if i < s.len() && is_digit(s[i as int]) {
        lemma_digits_end_props(s, (i + 1) as nat);
    }
}

/// Round trip of a fixed-point value: the canonical text, with no digit
/// directly after it, scans back to the value.
pub proof fn lemma_scan_milli_rt(s: Seq<char>, i: nat, m: u64)
    requires
        i + milli_rep(m as nat).len() <= s.len(),
        s.subrange(i as int, (i + milli_rep(m as nat).len()) as int) == milli_rep(m as nat),
        i + milli_rep(m as nat).len() == s.len() || !is_digit(
            s[(i + milli_rep(m as nat).len()) as int],
        ),
    ensures
        scan_milli_sp(s, i) == Some((m, (i + milli_rep(m as nat).len()) as nat)),
{
    broadcast use vstd::arithmetic::div_mod::lemma_fundamental_div_mod;

    let v = (m / 1000) as u64;
    let f = (m % 1000) as nat;
    let dl = dec_rep(v as nat).len();
    let rep = milli_rep(m as nat);
    lemma_dec_rep_digits(v as nat);
    assert(forall|k: int|
        0 <= k < rep.len() ==> s.subrange(i as int, (i + rep.len()) as int)[k] == #[trigger] s[
            i + k
        ]);
    assert(s.subrange(i as int, (i + dl) as int) =~= dec_rep(v as nat));
    assert(s[(i + dl) as int] == rep[dl as int]);
    assert(rep[dl as int] == '.');
    assert(!is_digit('.'));
    lemma_scan_num_rt(s, i, v);
    let j = (i + dl) as nat;
    assert(s[j + 1int] == rep[dl as int + 1]);
    assert(s[j + 2int] == rep[dl as int + 2]);
    assert(s[j + 3int] == rep[dl as int + 3]);
    assert(rep[dl as int + 1] == digit_char(f as int / 100));
    assert(rep[dl as int + 2] == digit_char((f as int / 10) % 10));
    assert(rep[dl as int + 3] == digit_char(f as int % 10));
    assert(0 <= f as int / 100 < 10);
    assert(0 <= (f as int / 10) % 10 < 10);
    assert(0 <= f as int % 10 < 10);
    assert(is_digit(s[j + 1int]));
    assert(is_digit(s[j + 2int]));
    assert(is_digit(s[j + 3int]));
    assert(j + 4 == i + rep.len());
    assert(digits_end(s, (j + 4) as nat) == j + 4);
    assert(digits_end(s, (j + 3) as nat) == digits_end(s, (j + 4) as nat));
    assert(digits_end(s, (j + 2) as nat) == digits_end(s, (j + 3) as nat));
    assert(digits_end(s, (j + 1) as nat) == digits_end(s, (j + 2) as nat));
    assert(frac_val(s, (j + 1) as nat, (j + 4) as nat) == 100 * digit_val(s[j + 1int]) + 10
        * digit_val(s[j + 2int]) + digit_val(s[j + 3int]));
    assert(100 * (f as int / 100) + 10 * ((f as int / 10) % 10) + f as int % 10 == f as int) by {
        vstd::arithmetic::div_mod::lemma_div_denominator(f as int, 10, 10);
        assert(f as int / 10 == 10 * (f as int / 100) + (f as int / 10) % 10);
        assert(f as int == 10 * (f as int / 10) + f as int % 10);
    }
    assert(v * 1000 + f == m);
}

/// Round trip of a bracketed pair of numbers.
pub proof fn lemma_scan_pair_rt(s: Seq<char>, i: nat, a: u32, b: u32)
    requires
        i + pair_rep(a as nat, b as nat).len() <= s.len(),
        s.subrange(i as int, (i + pair_rep(a as nat, b as nat).len()) as int) == pair_rep(
            a as nat,
            b as nat,
        ),
    ensures
        scan_pair_sp(s, i) == Some(((a, b), (i + pair_rep(a as nat, b as nat).len()) as nat)),
{
    let rep = pair_rep(a as nat, b as nat);
    let la = dec_rep(a as nat).len();
    let lb = dec_rep(b as nat).len();
    lemma_dec_rep_digits(a as nat);
    lemma_dec_rep_digits(b as nat);
    assert(forall|k: int|
        0 <= k < rep.len() ==> s.subrange(i as int, (i + rep.len()) as int)[k] == #[trigger] s[
            i + k
        ]);
    assert(s.subrange(i as int, i as int + 1) =~= seq!['[']);
    assert(expect_sp(s, i, seq!['[']) == Some((i + 1) as nat));
    assert(rep.subrange(1, (1 + la) as int) =~= dec_rep(a as nat));
    lemma_piece_at(s, i, rep, 1, dec_rep(a as nat));
    assert(s.subrange(i as int + 1, (i + 1 + la) as int) == dec_rep(a as nat));
    assert(s[(i + 1 + la) as int] == rep[1 + la as int]);
    assert(rep[1 + la as int] == ',');
    assert(!is_digit(','));
    lemma_scan_num_rt(s, (i + 1) as nat, a as u64);
    assert(rep.subrange((1 + la) as int, (3 + la) as int) =~= seq![',', ' ']);
    lemma_piece_at(s, i, rep, (1 + la) as nat, seq![',', ' ']);
    assert(s.subrange((i + 1 + la) as int, (i + 3 + la) as int) == seq![',', ' ']);
    assert(expect_sp(s, (i + 1 + la) as nat, seq![',', ' ']) == Some((i + 3 + la) as nat));
    assert(rep.subrange((3 + la) as int, (3 + la + lb) as int) =~= dec_rep(b as nat));
    lemma_piece_at(s, i, rep, (3 + la) as nat, dec_rep(b as nat));
    assert(s.subrange((i + 3 + la) as int, (i + 3 + la + lb) as int) == dec_rep(b as nat));
    assert(s[(i + 3 + la + lb) as int] == rep[3 + la as int + lb as int]);
    assert(rep[3 + la as int + lb as int] == ']');
    assert(!is_digit(']'));
    lemma_scan_num_rt(s, (i + 3 + la) as nat, b as u64);
    assert(s.subrange((i + 3 + la + lb) as int, (i + 4 + la + lb) as int) =~= seq![']']);
    assert(expect_sp(s, (i + 3 + la + lb) as nat, seq![']']) == Some((i + 4 + la + lb) as nat));
}

/// Round trip of the items of a nonempty string list, closing bracket
/// included.
pub proof fn lemma_scan_items_rt(s: Seq<char>, i: nat, xs: Seq<Seq<char>>, acc: Seq<Seq<char>>)
    requires
        xs.len() >= 1,
        forall|k: int| 0 <= k < xs.len() ==> str_ok(#[trigger] xs[k]),
        i + strlist_inner(xs).len() + 1 <= s.len(),
        s.subrange(i as int, (i + strlist_inner(xs).len() + 1) as int) == strlist_inner(xs)
            + seq![']'],
    ensures
        scan_items(s, i, acc) == Some((acc + xs, (i + strlist_inner(xs).len() + 1) as nat)),
    decreases xs.len(),
{
    let inner = strlist_inner(xs);
    let whole = inner + seq![']'];
    let l0 = xs[0].len();
    assert(forall|k: int|
        0 <= k < whole.len() ==> s.subrange(i as int, (i + whole.len()) as int)[k]
            == #[trigger] s[i + k]);
    if xs.len() == 1 {
        assert(s.subrange(i as int, (i + l0 + 2) as int) =~= quoted(xs[0]));
        lemma_scan_quoted_rt(s, i, xs[0]);
        assert(s[(i + l0 + 2) as int] == whole[l0 as int + 2]);
        assert(whole[l0 as int + 2] == ']');
        assert(acc.push(xs[0]) =~= acc + xs);
    } else {
        assert(s.subrange(i as int, (i + l0 + 2) as int) =~= quoted(xs[0]));
        lemma_scan_quoted_rt(s, i, xs[0]);
        let j = (i + l0 + 2) as nat;
        assert(s[j as int] == whole[l0 as int + 2]);
        assert(s[j + 1int] == whole[l0 as int + 3]);
        assert(whole[l0 as int + 2] == ',');
        assert(whole[l0 as int + 3] == ' ');
        let rest = xs.skip(1);
        assert(strlist_inner(rest).len() + 1 + (j + 2) <= s.len());
        assert(whole.subrange((l0 + 4) as int, whole.len() as int) =~= strlist_inner(rest)
            + seq![']']);
        lemma_piece_at(s, i, whole, (l0 + 4) as nat, strlist_inner(rest) + seq![']']);
        assert(s.subrange((j + 2) as int, (i + whole.len()) as int) == strlist_inner(rest)
            + seq![']']);
        assert(forall|k: int| 0 <= k < rest.len() ==> str_ok(#[trigger] rest[k]));
        lemma_scan_items_rt(s, (j + 2) as nat, rest, acc.push(xs[0]));
        assert(acc.push(xs[0]) + rest =~= acc + xs);
    }
}

/// Round trip of a bracketed string list.
pub proof fn lemma_scan_strlist_rt(s: Seq<char>, i: nat, xs: Seq<Seq<char>>)
    requires
        forall|k: int| 0 <= k < xs.len() ==> str_ok(#[trigger] xs[k]),
        i + strlist_rep(xs).len() <= s.len(),
        s.subrange(i as int, (i + strlist_rep(xs).len()) as int) == strlist_rep(xs),
    ensures
        scan_strlist_sp(s, i) == Some((xs, (i + strlist_rep(xs).len()) as nat)),
{
    let rep = strlist_rep(xs);
    assert(forall|k: int|
        0 <= k < rep.len() ==> s.subrange(i as int, (i + rep.len()) as int)[k] == #[trigger] s[
            i + k
        ]);
    assert(s[i as int] == rep[0]);
    assert(rep[0] == '[');
    if xs.len() == 0 {
        assert(s[i + 1int] == rep[1]);
        assert(rep[1] == ']');
        assert(xs =~= Seq::<Seq<char>>::empty());
    } else {
        assert(s[i + 1int] == rep[1]);
        assert(rep[1] == quoted(xs[0])[0]);
        assert(rep[1] == '"');
        assert(s[i + 1int] != ']');
        assert(rep.subrange(1, rep.len() as int) =~= strlist_inner(xs) + seq![']']);
        lemma_piece_at(s, i, rep, 1, strlist_inner(xs) + seq![']']);
        assert(s.subrange(i as int + 1, (i + 1 + strlist_inner(xs).len() + 1) as int)
            == strlist_inner(xs) + seq![']']);
        lemma_scan_items_rt(s, (i + 1) as nat, xs, Seq::empty());
        assert(Seq::<Seq<char>>::empty() + xs =~= xs);
    }
}

/// Round trip of a bare key with a non-key character after it.
pub proof fn lemma_scan_key_rt(s: Seq<char>, i: nat, k: Seq<char>)
    requires
        key_ok(k),
        i + k.len() <= s.len(),
        s.subrange(i as int, (i + k.len()) as int) == k,
        i + k.len() == s.len() || !is_key_char(s[(i + k.len()) as int]),
    ensures
        scan_key(s, i) == (k, (i + k.len()) as nat),
    decreases k.len(),
{
    assert(forall|j: int|
        0 <= j < k.len() ==> s.subrange(i as int, (i + k.len()) as int)[j] == #[trigger] s[i + j]);
    if k.len() == 0 {
        assert(k =~= Seq::<char>::empty());
    } else {
        assert(s[i as int] == k[0]);
        let rest = k.skip(1);
        assert(s.subrange((i + 1) as int, (i + 1 + rest.len()) as int) =~= rest);
        if rest.len() == 0 {
            assert(scan_key(s, (i + 1) as nat) == (Seq::<char>::empty(), (i + 1) as nat));
        } else {
            lemma_scan_key_rt(s, (i + 1) as nat, rest);
        }
        assert(seq![s[i as int]] + rest =~= k);
    }
}

/// Scanning string content fails when a forbidden character or the end
/// arrives before the closing quote.
pub proof fn lemma_scan_str_chars_none(s: Seq<char>, i: nat, e: nat)
    requires
        i <= e <= s.len(),
        forall|k: int| i <= k < e ==> is_str_char(#[trigger] s[k]),
        e == s.len() || (!is_str_char(s[e as int]) && s[e as int] != '"'),
    ensures
        scan_str_chars(s, i) is None,
    decreases e - i,
{
    if i < e {
        lemma_scan_str_chars_none(s, (i + 1) as nat, e);
    }
}

/// Joining one more item onto a list's comma-separated text.
pub proof fn lemma_strlist_inner_snoc(xs: Seq<Seq<char>>)
    requires
        xs.len() >= 2,
    ensures
        strlist_inner(xs) == strlist_inner(xs.drop_last()) + seq![',', ' '] + quoted(xs.last()),
    decreases xs.len(),
{
    if xs.len() == 2 {
        assert(xs.skip(1) =~= seq![xs[1]]);
        assert(xs.drop_last() =~= seq![xs[0]]);
        assert(strlist_inner(seq![xs[1]]) == quoted(xs[1]));
        assert(strlist_inner(seq![xs[0]]) == quoted(xs[0]));
    } else {
        lemma_strlist_inner_snoc(xs.skip(1));
        assert(xs.skip(1).drop_last() =~= xs.drop_last().skip(1));
        assert(xs.skip(1).last() == xs.last());
        assert(strlist_inner(xs.drop_last()) == quoted(xs[0]) + seq![',', ' ']
            + strlist_inner(xs.drop_last().skip(1)));
        assert((quoted(xs[0]) + seq![',', ' '] + strlist_inner(xs.skip(1).drop_last())) + seq![
            ',',
            ' ',
        ] + quoted(xs.last()) =~= quoted(xs[0]) + seq![',', ' '] + (strlist_inner(
            xs.skip(1).drop_last(),
        ) + seq![',', ' '] + quoted(xs.skip(1).last())));
    }
}

/// Match fixed text at the cursor, yielding the cursor past it.
pub fn expect_lit(s: &str, i: usize, lit: &str) -> (r: Option<usize>)
    ensures
        (r is Some) == (expect_sp(s@, i as nat, lit@) is Some),
        r matches Some(j) ==> expect_sp(s@, i as nat, lit@) == Some(j as nat) && i <= j <= s@.len(),
{
    let n = s.unicode_len();
    let m = lit.unicode_len();
    if i > n || m > n - i {
        return None;
    }
    let mut k: usize = 0;
    while k < m
        invariant
            0 <= k <= m,
            i + m <= n,
            n == s@.len(),
            m == lit@.len(),
            forall|t: int| 0 <= t < k ==> s@[i + t] == lit@[t],
        decreases m - k,
    {
        let a = s.get_char(i + k);
        let b = lit.get_char(k);
        if a != b {
            proof {
                assert(s@.subrange(i as int, (i + m) as int)[k as int] == s@[i + k]);
            }
            return None;
        }
        k = k + 1;
    }
    proof {
        assert(s@.subrange(i as int, (i + m) as int) =~= lit@);
    }
    Some(i + m)
}

/// Scan a decimal number at the cursor.
pub fn scan_num(s: &str, i: usize) -> (r: Option<(u64, usize)>)
    ensures
        (r is Some) == (scan_num_sp(s@, i as nat) is Some),
        r matches Some((v, j)) ==> scan_num_sp(s@, i as nat) == Some((v, j as nat)) && i <= j
            <= s@.len(),
{
    broadcast use vstd::arithmetic::div_mod::lemma_fundamental_div_mod;

    let n = s.unicode_len();
    if i >= n {
        return None;
    }
    let c0 = s.get_char(i) as u32;
    if !(48 <= c0 && c0 <= 57) {
        return None;
    }
    let mut acc: u64 = 0;
    let mut j: usize = i;
    loop
        invariant
            i <= j <= n,
            n == s@.len(),
            i < n,
            is_digit(s@[i as int]),
            scan_digits(s@, i as nat, 0) == scan_digits(s@, j as nat, acc),
        decreases n - j,
    {
        if j >= n {
            return Some((acc, j));
        }
        let c = s.get_char(j) as u32;
        if !(48 <= c && c <= 57) {
            return Some((acc, j));
        }
        let d = (c - 48) as u64;
        let limit = (u64::MAX - d) / 10;
        if acc > limit {
            proof {
                assert(acc * 10 + digit_val(s@[j as int]) > u64::MAX);
            }
            return None;
        }
        proof {
            assert(acc * 10 + digit_val(s@[j as int]) <= u64::MAX);
        }
        acc = acc * 10 + d;
        j = j + 1;
    }
}

/// Scan a quoted string value at the cursor.
pub fn scan_quoted(s: &str, i: usize) -> (r: Option<(String, usize)>)
    ensures
        (r is Some) == (scan_quoted_sp(s@, i as nat) is Some),
        r matches Some((t, j)) ==> scan_quoted_sp(s@, i as nat) == Some((t@, j as nat)) && i <= j
            <= s@.len(),
{
    let n = s.unicode_len();
    if i >= n {
        return None;
    }
    if s.get_char(i) != '"' {
        return None;
    }
    let mut j: usize = i + 1;
    loop
        invariant
            i + 1 <= j <= n,
            n == s@.len(),
            s@[i as int] == '"',
            forall|k: int| i + 1 <= k < j ==> is_str_char(#[trigger] s@[k]),
        decreases n - j,
    {
        if j >= n {
            proof {
                lemma_scan_str_chars_none(s@, (i + 1) as nat, n as nat);
            }
            return None;
        }
        let c = s.get_char(j);
        if c == '"' {
            proof {
                lemma_scan_str_chars(s@, (i + 1) as nat, j as nat);
            }
            let piece = s.substring_char(i + 1, j);
            let t = String::from_str(piece);
            return Some((t, j + 1));
        }
        let cu = c as u32;
        if !(32 <= cu && cu <= 126 && c != '\\') {
            proof {
                lemma_scan_str_chars_none(s@, (i + 1) as nat, j as nat);
            }
            return None;
        }
        j = j + 1;
    }
}

/// Scan a boolean at the cursor.
pub fn scan_bool(s: &str, i: usize) -> (r: Option<(bool, usize)>)
    ensures
        (r is Some) == (scan_bool_sp(s@, i as nat) is Some),
        r matches Some((b, j)) ==> scan_bool_sp(s@, i as nat) == Some((b, j as nat)) && i <= j
            <= s@.len(),
{
    proof {
        reveal_strlit("true");
        reveal_strlit("false");
        assert("true"@ =~= bool_rep(true));
        assert("false"@ =~= bool_rep(false));
    }
    match expect_lit(s, i, "true") {
        Some(j) => Some((true, j)),
        None => match expect_lit(s, i, "false") {
            Some(j) => Some((false, j)),
            None => None,
        },
    }
}

/// Scan a fixed-point value at the cursor.
pub fn scan_milli(s: &str, i: usize) -> (r: Option<(u64, usize)>)
    ensures
        (r is Some) == (scan_milli_sp(s@, i as nat) is Some),
        r matches Some((v, j)) ==> scan_milli_sp(s@, i as nat) == Some((v, j as nat)) && i <= j
            <= s@.len(),
{
    broadcast use vstd::arithmetic::div_mod::lemma_fundamental_div_mod;

    let n = s.unicode_len();
    let (v, j) = match scan_num(s, i) {
        None => {
            return None;
        },
        Some(p) => p,
    };
    if j < n && s.get_char(j) == '.' {
        if j + 1 >= n {
            return None;
        }
        let c1 = s.get_char(j + 1) as u32;
        if !(48 <= c1 && c1 <= 57) {
            return None;
        }
        let mut f: u64 = 100 * ((c1 - 48) as u64);
        let mut k: usize = j + 2;
        proof {
            lemma_digits_end_props(s@, (j + 1) as nat);
            assert(digits_end(s@, (j + 1) as nat) == digits_end(s@, (j + 2) as nat));
        }
        let ghost e = digits_end(s@, (j + 1) as nat);
        if k < n {
            let c2 = s.get_char(k) as u32;
            if 48 <= c2 && c2 <= 57 {
                f = f + 10 * ((c2 - 48) as u64);
                k = k + 1;
                proof {
                    assert(digits_end(s@, (j + 2) as nat) == digits_end(s@, (j + 3) as nat));
                }
                if k < n {
                    let c3 = s.get_char(k) as u32;
                    if 48 <= c3 && c3 <= 57 {
                        f = f + ((c3 - 48) as u64);
                        k = k + 1;
                        proof {
                            assert(digits_end(s@, (j + 3) as nat) == digits_end(
                                s@,
                                (j + 4) as nat,
                            ));
                        }
                    }
                }
            }
        }
        proof {
            assert(e == digits_end(s@, k as nat));
            assert(f == frac_val(s@, (j + 1) as nat, e)) by {
                lemma_digits_end_props(s@, (j + 1) as nat);
            }
        }
        loop
            invariant
                j + 2 <= k,
                k <= n,
                n == s@.len(),
                e == digits_end(s@, k as nat),
                e == digits_end(s@, (j + 1) as nat),
            ensures
                k as nat == e,
            decreases n - k,
        {
            if k >= n {
                break;
            }
            let c = s.get_char(k) as u32;
            if !(48 <= c && c <= 57) {
                break;
            }
            proof {
                assert(digits_end(s@, k as nat) == digits_end(s@, (k + 1) as nat));
            }
            k = k + 1;
        }
        let limit = (u64::MAX - f) / 1000;
        if v > limit {
            proof {
                assert(v * 1000 + frac_val(s@, (j + 1) as nat, e) > u64::MAX);
            }
            return None;
        }
        proof {
            assert(v * 1000 + frac_val(s@, (j + 1) as nat, e) <= u64::MAX);
        }
        Some((v * 1000 + f, k))
    } else {
        let limit = u64::MAX / 1000;
        if v > limit {
            proof {
                assert(v * 1000 > u64::MAX);
            }
            return None;
        }
        proof {
            assert(v * 1000 <= u64::MAX);
        }
        Some((v * 1000, j))
    }
}

/// Advance the cursor past blank lines and whole-line comments.
pub fn advance_trivia(s: &str, i: usize) -> (r: usize)
    ensures
        r as nat == skip_trivia(s@, i as nat),
        i <= r,
        r <= s@.len() || r == i,
{
    let n = s.unicode_len();
    if i >= n {
        return i;
    }
    let mut j: usize = i;
    loop
        invariant
            i <= j <= n,
            n == s@.len(),
            skip_trivia(s@, i as nat) == skip_trivia(s@, j as nat),
        ensures
            i <= j <= n,
            j as nat == skip_trivia(s@, i as nat),
        decreases n - j,
    {
        if j >= n {
            break;
        }
        let c = s.get_char(j);
        if c == '\n' {
            j = j + 1;
        } else if c == '#' {
            let mut k: usize = j + 1;
            loop
                invariant
                    j + 1 <= k <= n,
                    n == s@.len(),
                    line_break(s@, (j + 1) as nat) == line_break(s@, k as nat),
                ensures
                    j + 1 <= k <= n,
                    k as nat == line_break(s@, (j + 1) as nat),
                decreases n - k,
            {
                if k >= n {
                    break;
                }
                if s.get_char(k) == '\n' {
                    break;
                }
                k = k + 1;
            }
            j = k;
        } else {
            break;
        }
    }
    j
}

/// The end of a value line: the end of the text, or one newline.
pub fn line_end(s: &str, i: usize) -> (r: Option<usize>)
    ensures
        (r is Some) == (line_end_sp(s@, i as nat) is Some),
        r matches Some(j) ==> line_end_sp(s@, i as nat) == Some(j as nat) && i <= j <= s@.len(),
{
    let n = s.unicode_len();
    if i == n {
        return Some(i);
    }
    if i < n && s.get_char(i) == '\n' {
        return Some(i + 1);
    }
    None
}

/// Scan a bracketed pair of numbers at the cursor, each fitting `u32`.
pub fn scan_pair(s: &str, i: usize) -> (r: Option<((u32, u32), usize)>)
    ensures
        (r is Some) == (scan_pair_sp(s@, i as nat) is Some),
        r matches Some((p, j)) ==> scan_pair_sp(s@, i as nat) == Some((p, j as nat)) && i <= j
            <= s@.len(),
{
    proof {
        reveal_strlit("[");
        reveal_strlit(", ");
        reveal_strlit("]");
        assert("["@ =~= seq!['[']);
        assert(", "@ =~= seq![',', ' ']);
        assert("]"@ =~= seq![']']);
    }
    let j0 = match expect_lit(s, i, "[") {
        None => {
            return None;
        },
        Some(j) => j,
    };
    let (a, j1) = match scan_num(s, j0) {
        None => {
            return None;
        },
        Some(p) => p,
    };
    if a > u32::MAX as u64 {
        return None;
    }
    let j2 = match expect_lit(s, j1, ", ") {
        None => {
            return None;
        },
        Some(j) => j,
    };
    let (b, j3) = match scan_num(s, j2) {
        None => {
            return None;
        },
        Some(p) => p,
    };
    if b > u32::MAX as u64 {
        return None;
    }
    let j4 = match expect_lit(s, j3, "]") {
        None => {
            return None;
        },
        Some(j) => j,
    };
    Some(((a as u32, b as u32), j4))
}

/// Scan a bracketed list of quoted strings at the cursor.
pub fn scan_strlist(s: &str, i: usize) -> (r: Option<(Vec<String>, usize)>)
    ensures
        (r is Some) == (scan_strlist_sp(s@, i as nat) is Some),
        r matches Some((xs, j)) ==> scan_strlist_sp(s@, i as nat) == Some(
            (xs@.map_values(|t: String| t@), j as nat),
        ) && i <= j <= s@.len(),
{
    let n = s.unicode_len();
    if i >= n || s.get_char(i) != '[' {
        return None;
    }
    if i + 1 < n && s.get_char(i + 1) == ']' {
        let empty: Vec<String> = Vec::new();
        proof {
            assert(empty@.map_values(|t: String| t@) =~= Seq::<Seq<char>>::empty());
        }
        return Some((empty, i + 2));
    }
    let mut acc: Vec<String> = Vec::new();
    let mut j: usize = i + 1;
    proof {
        assert(acc@.map_values(|t: String| t@) =~= Seq::<Seq<char>>::empty());
    }
    loop
        invariant
            i + 1 <= j <= n,
            n == s@.len(),
            i < n,
            s@[i as int] == '[',
            !(i + 1 < n && s@[i as int + 1] == ']'),
            scan_strlist_sp(s@, i as nat) == scan_items(
                s@,
                j as nat,
                acc@.map_values(|t: String| t@),
            ),
        decreases n - j,
    {
        let ghost pre = acc@.map_values(|t: String| t@);
        let (t, j1) = match scan_quoted(s, j) {
            None => {
                return None;
            },
            Some(p) => p,
        };
        acc.push(t);
        proof {
            assert(acc@.map_values(|t: String| t@) =~= pre.push(t@));
        }
        if j1 < n {
            let c = s.get_char(j1);
            if c == ']' {
                return Some((acc, j1 + 1));
            }
            if c == ',' && j1 + 1 < n {
                if s.get_char(j1 + 1) == ' ' && j < j1 + 2 {
                    j = j1 + 2;
                } else {
                    return None;
                }
            } else {
                return None;
            }
        } else {
            return None;
        }
    }
}

/// Scan a bare key at the cursor.
pub fn scan_barekey(s: &str, i: usize) -> (r: (String, usize))
    requires
        i <= s@.len(),
    ensures
        scan_key(s@, i as nat) == (r.0@, r.1 as nat),
        i <= r.1 <= s@.len(),
{
    let n = s.unicode_len();
    let mut j: usize = i;
    loop
        invariant
            i <= j <= n,
            n == s@.len(),
            forall|k: int| i <= k < j ==> is_key_char(#[trigger] s@[k]),
        ensures
            i <= j <= n,
            forall|k: int| i <= k < j ==> is_key_char(#[trigger] s@[k]),
            j == n || !is_key_char(s@[j as int]),
        decreases n - j,
    {
        if j >= n {
            break;
        }
        let c = s.get_char(j) as u32;
        if !((48 <= c && c <= 57) || (97 <= c && c <= 122) || (65 <= c && c <= 90) || c == 45
            || c == 95) {
            break;
        }
        j = j + 1;
    }
    proof {
        if j == i {
            assert(scan_key(s@, i as nat) == (Seq::<char>::empty(), i as nat));
            assert(s@.subrange(i as int, i as int) =~= Seq::<char>::empty());
        } else {
            assert(key_ok(s@.subrange(i as int, j as int)));
            lemma_scan_key_rt(s@, i as nat, s@.subrange(i as int, j as int));
        }
    }
    let piece = s.substring_char(i, j);
    (String::from_str(piece), j)
}

/// Append one decimal digit.
pub fn push_digit(out: &mut String, d: u64)
    requires
        d < 10,
    ensures
        final(out)@ == old(out)@ + seq![digit_char(d as int)],
{
    proof {
        reveal_strlit("0");
        reveal_strlit("1");
        reveal_strlit("2");
        reveal_strlit("3");
        reveal_strlit("4");
        reveal_strlit("5");
        reveal_strlit("6");
        reveal_strlit("7");
        reveal_strlit("8");
        reveal_strlit("9");
    }
    if d == 0 {
        proof {
            assert("0"@ =~= seq![digit_char(0)]);
        }
        out.append("0");
    } else if d == 1 {
        proof {
            assert("1"@ =~= seq![digit_char(1)]);
        }
        out.append("1");
    } else if d == 2 {
        proof {
            assert("2"@ =~= seq![digit_char(2)]);
        }
        out.append("2");
    } else if d == 3 {
        proof {
            assert("3"@ =~= seq![digit_char(3)]);
        }
        out.append("3");
    } else if d == 4 {
        proof {
            assert("4"@ =~= seq![digit_char(4)]);
        }
        out.append("4");
    } else if d == 5 {
        proof {
            assert("5"@ =~= seq![digit_char(5)]);
        }
        out.append("5");
    } else if d == 6 {
        proof {
            assert("6"@ =~= seq![digit_char(6)]);
        }
        out.append("6");
    } else if d == 7 {
        proof {
            assert("7"@ =~= seq![digit_char(7)]);
        }
        out.append("7");
    } else if d == 8 {
        proof {
            assert("8"@ =~= seq![digit_char(8)]);
        }
        out.append("8");
    } else {
        proof {
            assert("9"@ =~= seq![digit_char(9)]);
        }
        out.append("9");
    }
}

/// Append the canonical decimal text of a number.
pub fn push_u64(out: &mut String, n: u64)
    ensures
        final(out)@ == old(out)@ + dec_rep(n as nat),
    decreases n,
{
    broadcast use vstd::arithmetic::div_mod::lemma_fundamental_div_mod;

    if n < 10 {
        push_digit(out, n);
    } else {
        push_u64(out, n / 10);
        push_digit(out, n % 10);
        proof {
            assert(old(out)@ + dec_rep((n / 10) as nat) + seq![digit_char((n % 10) as int)]
                =~= old(out)@ + dec_rep(n as nat));
        }
    }
}

/// Append a quoted string value.
pub fn push_quoted(out: &mut String, t: &str)
    ensures
        final(out)@ == old(out)@ + quoted(t@),
{
    proof {
        reveal_strlit("\"");
    }
    out.append("\"");
    out.append(t);
    out.append("\"");
    proof {
        assert("\""@ =~= seq!['"']);
        assert(old(out)@ + "\""@ + t@ + "\""@ =~= old(out)@ + quoted(t@));
    }
}

/// Append a boolean.
pub fn push_bool(out: &mut String, b: bool)
    ensures
        final(out)@ == old(out)@ + bool_rep(b),
{
    if b {
        proof {
            reveal_strlit("true");
            assert("true"@ =~= bool_rep(true));
        }
        out.append("true");
    } else {
        proof {
            reveal_strlit("false");
            assert("false"@ =~= bool_rep(false));
        }
        out.append("false");
    }
}

/// Append the canonical fixed-point text of a thousandths value.
pub fn push_milli(out: &mut String, m: u64)
    ensures
        final(out)@ == old(out)@ + milli_rep(m as nat),
{
    proof {
        reveal_strlit(".");
    }
    push_u64(out, m / 1000);
    out.append(".");
    let f = m % 1000;
    push_digit(out, f / 100);
    push_digit(out, (f / 10) % 10);
    push_digit(out, f % 10);
    proof {
        assert("."@ =~= seq!['.']);
        assert(old(out)@ + dec_rep((m / 1000) as nat) + "."@ + seq![digit_char((f / 100) as int)]
            + seq![digit_char(((f / 10) % 10) as int)] + seq![digit_char((f % 10) as int)]
            =~= old(out)@ + milli_rep(m as nat));
    }
}

/// Append a bracketed pair of numbers.
pub fn push_pair(out: &mut String, a: u32, b: u32)
    ensures
        final(out)@ == old(out)@ + pair_rep(a as nat, b as nat),
{
    proof {
        reveal_strlit("[");
        reveal_strlit(", ");
        reveal_strlit("]");
    }
    out.append("[");
    push_u64(out, a as u64);
    out.append(", ");
    push_u64(out, b as u64);
    out.append("]");
    proof {
        assert(old(out)@ + "["@ + dec_rep(a as nat) + ", "@ + dec_rep(b as nat) + "]"@ =~= old(
            out,
        )@ + pair_rep(a as nat, b as nat));
    }
}

/// Append a bracketed list of quoted strings.
pub fn push_strlist(out: &mut String, xs: &Vec<String>)
    ensures
        final(out)@ == old(out)@ + strlist_rep(xs@.map_values(|t: String| t@)),
{
    proof {
        reveal_strlit("[");
        reveal_strlit(", ");
        reveal_strlit("]");
    }
    let ghost views = xs@.map_values(|t: String| t@);
    out.append("[");
    let mut k: usize = 0;
    while k < xs.len()
        invariant
            0 <= k <= xs@.len(),
            views == xs@.map_values(|t: String| t@),
            views.len() == xs@.len(),
            out@ == old(out)@ + seq!['['] + strlist_inner(views.take(k as int)),
            "["@ == seq!['['],
            ", "@ == seq![',', ' '],
            "]"@ == seq![']'],
        decreases xs@.len() - k,
    {
        if k > 0 {
            out.append(", ");
        }
        push_quoted(out, xs[k].as_str());
        proof {
            let taken = views.take(k as int + 1);
            if k == 0 {
                assert(taken =~= seq![views[0]]);
                assert(strlist_inner(taken) == quoted(views[0]));
                assert(out@ =~= old(out)@ + seq!['['] + strlist_inner(taken));
            } else {
                assert(taken.len() >= 2);
                lemma_strlist_inner_snoc(taken);
                assert(taken.drop_last() =~= views.take(k as int));
                assert(taken.last() == views[k as int]);
                assert(out@ =~= old(out)@ + seq!['['] + strlist_inner(taken));
            }
        }
        k = k + 1;
    }
    out.append("]");
    proof {
        assert(views.take(views.len() as int) =~= views);
        assert(out@ =~= old(out)@ + strlist_rep(views));
    }
}

/// One configuration line: a fixed prefix (key and equals sign), a value's
/// text, and a newline.
pub open spec fn line_of(prefix: Seq<char>, val: Seq<char>) -> Seq<char> {
    prefix + val + seq!['\n']
}

/// The first position at or after `i` past the current line: everything up
/// to and excluding the next newline (or the end).
pub open spec fn line_break(s: Seq<char>, i: nat) -> nat
    decreases s.len() - i,
{
    if i < s.len() && s[i as int] != '\n' {
        line_break(s, (i + 1) as nat)
    } else {
        i
    }
}

/// Skip what may stand between lines: blank lines and whole-line comments.
pub open spec fn skip_trivia(s: Seq<char>, i: nat) -> nat
    decreases s.len() - i,
{
    if i < s.len() && s[i as int] == '\n' {
        skip_trivia(s, (i + 1) as nat)
    } else if i < s.len() && s[i as int] == '#' {
        let e = line_break(s, (i + 1) as nat);
        if i < e && e <= s.len() {
            skip_trivia(s, e)
        } else {
            e
        }
    } else {
        i
    }
}

/// Where there is nothing to skip, the cursor stays.
pub proof fn lemma_skip_trivia_stays(s: Seq<char>, i: nat)
    requires
        i >= s.len() || (s[i as int] != '\n' && s[i as int] != '#'),
    ensures
        skip_trivia(s, i) == i,
{
}

/// The cut to the next line never moves backwards and stops at a newline or
/// the end.
pub proof fn lemma_line_break_bounds(s: Seq<char>, i: nat)
    requires
        i <= s.len(),
    ensures
        i <= line_break(s, i) <= s.len(),
        line_break(s, i) == s.len() || s[line_break(s, i) as int] == '\n',
    decreases s.len() - i,
{
    if i < s.len() && s[i as int] != '\n' {
        lemma_line_break_bounds(s, (i + 1) as nat);
    }
}

/// The end of a value line: the end of the text, or one newline.
pub open spec fn line_end_sp(s: Seq<char>, i: nat) -> Option<nat> {
    if i == s.len() {
        Some(i)
    } else if i < s.len() && s[i as int] == '\n' {
        Some((i + 1) as nat)
    } else {
        None
    }
}

/// A line holding a quoted string value.
pub open spec fn quoted_line_sp(s: Seq<char>, i: nat, prefix: Seq<char>) -> Option<
    (Seq<char>, nat),
> {
    match expect_sp(s, skip_trivia(s, i), prefix) {
        None => None,
        Some(j) => match scan_quoted_sp(s, j) {
            None => None,
            Some((t, j2)) => match line_end_sp(s, j2) {
                None => None,
                Some(j3) => Some((t, j3)),
            },
        },
    }
}

/// A line holding a number.
pub open spec fn num_line_sp(s: Seq<char>, i: nat, prefix: Seq<char>) -> Option<(u64, nat)> {
    match expect_sp(s, skip_trivia(s, i), prefix) {
        None => None,
        Some(j) => match scan_num_sp(s, j) {
            None => None,
            Some((v, j2)) => match line_end_sp(s, j2) {
                None => None,
                Some(j3) => Some((v, j3)),
            },
        },
    }
}

/// A line holding a fixed-point value.
pub open spec fn milli_line_sp(s: Seq<char>, i: nat, prefix: Seq<char>) -> Option<(u64, nat)> {
    match expect_sp(s, skip_trivia(s, i), prefix) {
        None => None,
        Some(j) => match scan_milli_sp(s, j) {
            None => None,
            Some((v, j2)) => match line_end_sp(s, j2) {
                None => None,
                Some(j3) => Some((v, j3)),
            },
        },
    }
}

/// A line holding a boolean.
pub open spec fn bool_line_sp(s: Seq<char>, i: nat, prefix: Seq<char>) -> Option<(bool, nat)> {
    match expect_sp(s, skip_trivia(s, i), prefix) {
        None => None,
        Some(j) => match scan_bool_sp(s, j) {
            None => None,
            Some((b, j2)) => match line_end_sp(s, j2) {
                None => None,
                Some(j3) => Some((b, j3)),
            },
        },
    }
}

/// A line holding a bracketed pair.
pub open spec fn pair_line_sp(s: Seq<char>, i: nat, prefix: Seq<char>) -> Option<
    ((u32, u32), nat),
> {
    match expect_sp(s, skip_trivia(s, i), prefix) {
        None => None,
        Some(j) => match scan_pair_sp(s, j) {
            None => None,
            Some((p, j2)) => match line_end_sp(s, j2) {
                None => None,
                Some(j3) => Some((p, j3)),
            },
        },
    }
}

/// A line holding a list of quoted strings.
pub open spec fn strlist_line_sp(s: Seq<char>, i: nat, prefix: Seq<char>) -> Option<
    (Seq<Seq<char>>, nat),
> {
    match expect_sp(s, skip_trivia(s, i), prefix) {
        None => None,
        Some(j) => match scan_strlist_sp(s, j) {
            None => None,
            Some((xs, j2)) => match line_end_sp(s, j2) {
                None => None,
                Some(j3) => Some((xs, j3)),
            },
        },
    }
}

/// Round trip of a quoted-string line.
pub proof fn lemma_quoted_line_rt(s: Seq<char>, i: nat, prefix: Seq<char>, t: Seq<char>)
    requires
        prefix.len() >= 1,
        prefix[0] != '\n',
        prefix[0] != '#',
        str_ok(t),
        i + line_of(prefix, quoted(t)).len() <= s.len(),
        s.subrange(i as int, (i + line_of(prefix, quoted(t)).len()) as int) == line_of(
            prefix,
            quoted(t),
        ),
    ensures
        quoted_line_sp(s, i, prefix) == Some((t, (i + line_of(prefix, quoted(t)).len()) as nat)),
{
    let rep = line_of(prefix, quoted(t));
    let pl = prefix.len();
    let vl = quoted(t).len();
    assert(rep[0] == prefix[0]);
    assert(s.subrange(i as int, (i + rep.len()) as int)[0] == s[i as int]);
    lemma_skip_trivia_stays(s, i);
    assert(rep.subrange(0, pl as int) =~= prefix);
    lemma_piece_at(s, i, rep, 0, prefix);
    assert(rep.subrange(pl as int, (pl + vl) as int) =~= quoted(t));
    lemma_piece_at(s, i, rep, pl, quoted(t));
    lemma_scan_quoted_rt(s, (i + pl) as nat, t);
    assert(rep.subrange((pl + vl) as int, (pl + vl + 1) as int) =~= seq!['\n']);
    lemma_piece_at(s, i, rep, (pl + vl) as nat, seq!['\n']);
    assert(s.subrange((i + pl + vl) as int, (i + pl + vl + 1) as int)[0] == s[(i + pl + vl) as int]);
    assert(s[(i + pl + vl) as int] == '\n');
    assert(!is_digit('\n'));
    assert(line_end_sp(s, (i + pl + vl) as nat) == Some((i + pl + vl + 1) as nat));
}

/// Round trip of a number line.
pub proof fn lemma_num_line_rt(s: Seq<char>, i: nat, prefix: Seq<char>, v: u64)
    requires
        prefix.len() >= 1,
        prefix[0] != '\n',
        prefix[0] != '#',
        i + line_of(prefix, dec_rep(v as nat)).len() <= s.len(),
        s.subrange(i as int, (i + line_of(prefix, dec_rep(v as nat)).len()) as int) == line_of(
            prefix,
            dec_rep(v as nat),
        ),
    ensures
        num_line_sp(s, i, prefix) == Some(
            (v, (i + line_of(prefix, dec_rep(v as nat)).len()) as nat),
        ),
{
    let rep = line_of(prefix, dec_rep(v as nat));
    let pl = prefix.len();
    let vl = dec_rep(v as nat).len();
    assert(rep[0] == prefix[0]);
    assert(s.subrange(i as int, (i + rep.len()) as int)[0] == s[i as int]);
    lemma_skip_trivia_stays(s, i);
    assert(rep.subrange(0, pl as int) =~= prefix);
    lemma_piece_at(s, i, rep, 0, prefix);
    assert(rep.subrange(pl as int, (pl + vl) as int) =~= dec_rep(v as nat));
    lemma_piece_at(s, i, rep, pl, dec_rep(v as nat));
    assert(rep.subrange((pl + vl) as int, (pl + vl + 1) as int) =~= seq!['\n']);
    lemma_piece_at(s, i, rep, (pl + vl) as nat, seq!['\n']);
    assert(s.subrange((i + pl + vl) as int, (i + pl + vl + 1) as int)[0] == s[(i + pl + vl) as int]);
    assert(s[(i + pl + vl) as int] == '\n');
    assert(!is_digit('\n'));
    assert(line_end_sp(s, (i + pl + vl) as nat) == Some((i + pl + vl + 1) as nat));
    assert(s.subrange((i + pl + vl) as int, (i + pl + vl + 1) as int)[0] == s[(i + pl + vl) as int]);
    assert(s[(i + pl + vl) as int] == '\n');
    assert(!is_digit('\n'));
    lemma_scan_num_rt(s, (i + pl) as nat, v);
}

/// Round trip of a fixed-point line.
pub proof fn lemma_milli_line_rt(s: Seq<char>, i: nat, prefix: Seq<char>, v: u64)
    requires
        prefix.len() >= 1,
        prefix[0] != '\n',
        prefix[0] != '#',
        i + line_of(prefix, milli_rep(v as nat)).len() <= s.len(),
        s.subrange(i as int, (i + line_of(prefix, milli_rep(v as nat)).len()) as int) == line_of(
            prefix,
            milli_rep(v as nat),
        ),
    ensures
        milli_line_sp(s, i, prefix) == Some(
            (v, (i + line_of(prefix, milli_rep(v as nat)).len()) as nat),
        ),
{
    let rep = line_of(prefix, milli_rep(v as nat));
    let pl = prefix.len();
    let vl = milli_rep(v as nat).len();
    assert(rep[0] == prefix[0]);
    assert(s.subrange(i as int, (i + rep.len()) as int)[0] == s[i as int]);
    lemma_skip_trivia_stays(s, i);
    assert(rep.subrange(0, pl as int) =~= prefix);
    lemma_piece_at(s, i, rep, 0, prefix);
    assert(rep.subrange(pl as int, (pl + vl) as int) =~= milli_rep(v as nat));
    lemma_piece_at(s, i, rep, pl, milli_rep(v as nat));
    assert(rep.subrange((pl + vl) as int, (pl + vl + 1) as int) =~= seq!['\n']);
    lemma_piece_at(s, i, rep, (pl + vl) as nat, seq!['\n']);
    assert(s.subrange((i + pl + vl) as int, (i + pl + vl + 1) as int)[0] == s[(i + pl + vl) as int]);
    assert(s[(i + pl + vl) as int] == '\n');
    assert(!is_digit('\n'));
    assert(line_end_sp(s, (i + pl + vl) as nat) == Some((i + pl + vl + 1) as nat));
    lemma_scan_milli_rt(s, (i + pl) as nat, v);
}

/// Round trip of a boolean line.
pub proof fn lemma_bool_line_rt(s: Seq<char>, i: nat, prefix: Seq<char>, b: bool)
    requires
        prefix.len() >= 1,
        prefix[0] != '\n',
        prefix[0] != '#',
        i + line_of(prefix, bool_rep(b)).len() <= s.len(),
        s.subrange(i as int, (i + line_of(prefix, bool_rep(b)).len()) as int) == line_of(
            prefix,
            bool_rep(b),
        ),
    ensures
        bool_line_sp(s, i, prefix) == Some(
            (b, (i + line_of(prefix, bool_rep(b)).len()) as nat),
        ),
{
    let rep = line_of(prefix, bool_rep(b));
    let pl = prefix.len();
    let vl = bool_rep(b).len();
    assert(rep[0] == prefix[0]);
    assert(s.subrange(i as int, (i + rep.len()) as int)[0] == s[i as int]);
    lemma_skip_trivia_stays(s, i);
    assert(rep.subrange(0, pl as int) =~= prefix);
    lemma_piece_at(s, i, rep, 0, prefix);
    assert(rep.subrange(pl as int, (pl + vl) as int) =~= bool_rep(b));
    lemma_piece_at(s, i, rep, pl, bool_rep(b));
    lemma_scan_bool_rt(s, (i + pl) as nat, b);
    assert(rep.subrange((pl + vl) as int, (pl + vl + 1) as int) =~= seq!['\n']);
    lemma_piece_at(s, i, rep, (pl + vl) as nat, seq!['\n']);
    assert(s.subrange((i + pl + vl) as int, (i + pl + vl + 1) as int)[0] == s[(i + pl + vl) as int]);
    assert(s[(i + pl + vl) as int] == '\n');
    assert(!is_digit('\n'));
    assert(line_end_sp(s, (i + pl + vl) as nat) == Some((i + pl + vl + 1) as nat));
}

/// Round trip of a pair line.
pub proof fn lemma_pair_line_rt(s: Seq<char>, i: nat, prefix: Seq<char>, a: u32, b: u32)
    requires
        prefix.len() >= 1,
        prefix[0] != '\n',
        prefix[0] != '#',
        i + line_of(prefix, pair_rep(a as nat, b as nat)).len() <= s.len(),
        s.subrange(i as int, (i + line_of(prefix, pair_rep(a as nat, b as nat)).len()) as int)
            == line_of(prefix, pair_rep(a as nat, b as nat)),
    ensures
        pair_line_sp(s, i, prefix) == Some(
            ((a, b), (i + line_of(prefix, pair_rep(a as nat, b as nat)).len()) as nat),
        ),
{
    let rep = line_of(prefix, pair_rep(a as nat, b as nat));
    let pl = prefix.len();
    let vl = pair_rep(a as nat, b as nat).len();
    assert(rep[0] == prefix[0]);
    assert(s.subrange(i as int, (i + rep.len()) as int)[0] == s[i as int]);
    lemma_skip_trivia_stays(s, i);
    assert(rep.subrange(0, pl as int) =~= prefix);
    lemma_piece_at(s, i, rep, 0, prefix);
    assert(rep.subrange(pl as int, (pl + vl) as int) =~= pair_rep(a as nat, b as nat));
    lemma_piece_at(s, i, rep, pl, pair_rep(a as nat, b as nat));
    lemma_scan_pair_rt(s, (i + pl) as nat, a, b);
    assert(rep.subrange((pl + vl) as int, (pl + vl + 1) as int) =~= seq!['\n']);
    lemma_piece_at(s, i, rep, (pl + vl) as nat, seq!['\n']);
    assert(s.subrange((i + pl + vl) as int, (i + pl + vl + 1) as int)[0] == s[(i + pl + vl) as int]);
    assert(s[(i + pl + vl) as int] == '\n');
    assert(!is_digit('\n'));
    assert(line_end_sp(s, (i + pl + vl) as nat) == Some((i + pl + vl + 1) as nat));
}

/// Round trip of a string-list line.
pub proof fn lemma_strlist_line_rt(s: Seq<char>, i: nat, prefix: Seq<char>, xs: Seq<Seq<char>>)
    requires
        prefix.len() >= 1,
        prefix[0] != '\n',
        prefix[0] != '#',
        forall|k: int| 0 <= k < xs.len() ==> str_ok(#[trigger] xs[k]),
        i + line_of(prefix, strlist_rep(xs)).len() <= s.len(),
        s.subrange(i as int, (i + line_of(prefix, strlist_rep(xs)).len()) as int) == line_of(
            prefix,
            strlist_rep(xs),
        ),
    ensures
        strlist_line_sp(s, i, prefix) == Some(
            (xs, (i + line_of(prefix, strlist_rep(xs)).len()) as nat),
        ),
{
    let rep = line_of(prefix, strlist_rep(xs));
    let pl = prefix.len();
    let vl = strlist_rep(xs).len();
    assert(rep[0] == prefix[0]);
    assert(s.subrange(i as int, (i + rep.len()) as int)[0] == s[i as int]);
    lemma_skip_trivia_stays(s, i);
    assert(rep.subrange(0, pl as int) =~= prefix);
    lemma_piece_at(s, i, rep, 0, prefix);
    assert(rep.subrange(pl as int, (pl + vl) as int) =~= strlist_rep(xs));
    lemma_piece_at(s, i, rep, pl, strlist_rep(xs));
    lemma_scan_strlist_rt(s, (i + pl) as nat, xs);
    assert(rep.subrange((pl + vl) as int, (pl + vl + 1) as int) =~= seq!['\n']);
    lemma_piece_at(s, i, rep, (pl + vl) as nat, seq!['\n']);
    assert(s.subrange((i + pl + vl) as int, (i + pl + vl + 1) as int)[0] == s[(i + pl + vl) as int]);
    assert(s[(i + pl + vl) as int] == '\n');
    assert(!is_digit('\n'));
    assert(line_end_sp(s, (i + pl + vl) as nat) == Some((i + pl + vl + 1) as nat));
}

/// Scan a quoted-string line.
pub fn quoted_line(s: &str, i: usize, prefix: &str) -> (r: Option<(String, usize)>)
    ensures
        (r is Some) == (quoted_line_sp(s@, i as nat, prefix@) is Some),
        r matches Some((t, j)) ==> quoted_line_sp(s@, i as nat, prefix@) == Some((t@, j as nat))
            && i <= j <= s@.len(),
{
    let i2 = advance_trivia(s, i);
    let j = match expect_lit(s, i2, prefix) {
        None => {
            return None;
        },
        Some(j) => j,
    };
    let (t, j2) = match scan_quoted(s, j) {
        None => {
            return None;
        },
        Some(p) => p,
    };
    match line_end(s, j2) {
        None => None,
        Some(j3) => Some((t, j3)),
    }
}

/// Scan a number line.
pub fn num_line(s: &str, i: usize, prefix: &str) -> (r: Option<(u64, usize)>)
    ensures
        (r is Some) == (num_line_sp(s@, i as nat, prefix@) is Some),
        r matches Some((v, j)) ==> num_line_sp(s@, i as nat, prefix@) == Some((v, j as nat))
            && i <= j <= s@.len(),
{
    let i2 = advance_trivia(s, i);
    let j = match expect_lit(s, i2, prefix) {
        None => {
            return None;
        },
        Some(j) => j,
    };
    let (v, j2) = match scan_num(s, j) {
        None => {
            return None;
        },
        Some(p) => p,
    };
    match line_end(s, j2) {
        None => None,
        Some(j3) => Some((v, j3)),
    }
}

/// Scan a fixed-point line.
pub fn milli_line(s: &str, i: usize, prefix: &str) -> (r: Option<(u64, usize)>)
    ensures
        (r is Some) == (milli_line_sp(s@, i as nat, prefix@) is Some),
        r matches Some((v, j)) ==> milli_line_sp(s@, i as nat, prefix@) == Some((v, j as nat))
            && i <= j <= s@.len(),
{
    let i2 = advance_trivia(s, i);
    let j = match expect_lit(s, i2, prefix) {
        None => {
            return None;
        },
        Some(j) => j,
    };
    let (v, j2) = match scan_milli(s, j) {
        None => {
            return None;
        },
        Some(p) => p,
    };
    match line_end(s, j2) {
        None => None,
        Some(j3) => Some((v, j3)),
    }
}

/// Scan a boolean line.
pub fn bool_line(s: &str, i: usize, prefix: &str) -> (r: Option<(bool, usize)>)
    ensures
        (r is Some) == (bool_line_sp(s@, i as nat, prefix@) is Some),
        r matches Some((b, j)) ==> bool_line_sp(s@, i as nat, prefix@) == Some((b, j as nat))
            && i <= j <= s@.len(),
{
    let i2 = advance_trivia(s, i);
    let j = match expect_lit(s, i2, prefix) {
        None => {
            return None;
        },
        Some(j) => j,
    };
    let (b, j2) = match scan_bool(s, j) {
        None => {
            return None;
        },
        Some(p) => p,
    };
    match line_end(s, j2) {
        None => None,
        Some(j3) => Some((b, j3)),
    }
}

/// Scan a pair line.
pub fn pair_line(s: &str, i: usize, prefix: &str) -> (r: Option<((u32, u32), usize)>)
    ensures
        (r is Some) == (pair_line_sp(s@, i as nat, prefix@) is Some),
        r matches Some((p, j)) ==> pair_line_sp(s@, i as nat, prefix@) == Some((p, j as nat))
            && i <= j <= s@.len(),
{
    let i2 = advance_trivia(s, i);
    let j = match expect_lit(s, i2, prefix) {
        None => {
            return None;
        },
        Some(j) => j,
    };
    let (p, j2) = match scan_pair(s, j) {
        None => {
            return None;
        },
        Some(p) => p,
    };
    match line_end(s, j2) {
        None => None,
        Some(j3) => Some((p, j3)),
    }
}

/// Scan a string-list line.
pub fn strlist_line(s: &str, i: usize, prefix: &str) -> (r: Option<(Vec<String>, usize)>)
    ensures
        (r is Some) == (strlist_line_sp(s@, i as nat, prefix@) is Some),
        r matches Some((xs, j)) ==> strlist_line_sp(s@, i as nat, prefix@) == Some(
            (xs@.map_values(|t: String| t@), j as nat),
        ) && i <= j <= s@.len(),
{
    let i2 = advance_trivia(s, i);
    let j = match expect_lit(s, i2, prefix) {
        None => {
            return None;
        },
        Some(j) => j,
    };
    let (xs, j2) = match scan_strlist(s, j) {
        None => {
            return None;
        },
        Some(p) => p,
    };
    match line_end(s, j2) {
        None => None,
        Some(j3) => Some((xs, j3)),
    }
}

/// Append a line with a quoted string value.
pub fn push_quoted_line(out: &mut String, prefix: &str, t: &str)
    ensures
        final(out)@ == old(out)@ + line_of(prefix@, quoted(t@)),
{
    proof {
        reveal_strlit("\n");
        assert("\n"@ =~= seq!['\n']);
    }
    out.append(prefix);
    push_quoted(out, t);
    out.append("\n");
    proof {
        assert(old(out)@ + prefix@ + quoted(t@) + seq!['\n'] =~= old(out)@ + line_of(
            prefix@,
            quoted(t@),
        ));
    }
}

/// Append a line with a number.
pub fn push_num_line(out: &mut String, prefix: &str, v: u64)
    ensures
        final(out)@ == old(out)@ + line_of(prefix@, dec_rep(v as nat)),
{
    proof {
        reveal_strlit("\n");
        assert("\n"@ =~= seq!['\n']);
    }
    out.append(prefix);
    push_u64(out, v);
    out.append("\n");
    proof {
        assert(old(out)@ + prefix@ + dec_rep(v as nat) + seq!['\n'] =~= old(out)@ + line_of(
            prefix@,
            dec_rep(v as nat),
        ));
    }
}

/// Append a line with a fixed-point value.
pub fn push_milli_line(out: &mut String, prefix: &str, v: u64)
    ensures
        final(out)@ == old(out)@ + line_of(prefix@, milli_rep(v as nat)),
{
    proof {
        reveal_strlit("\n");
        assert("\n"@ =~= seq!['\n']);
    }
    out.append(prefix);
    push_milli(out, v);
    out.append("\n");
    proof {
        assert(old(out)@ + prefix@ + milli_rep(v as nat) + seq!['\n'] =~= old(out)@ + line_of(
            prefix@,
            milli_rep(v as nat),
        ));
    }
}

/// Append a line with a boolean.
pub fn push_bool_line(out: &mut String, prefix: &str, b: bool)
    ensures
        final(out)@ == old(out)@ + line_of(prefix@, bool_rep(b)),
{
    proof {
        reveal_strlit("\n");
        assert("\n"@ =~= seq!['\n']);
    }
    out.append(prefix);
    push_bool(out, b);
    out.append("\n");
    proof {
        assert(old(out)@ + prefix@ + bool_rep(b) + seq!['\n'] =~= old(out)@ + line_of(
            prefix@,
            bool_rep(b),
        ));
    }
}

/// Append a line with a bracketed pair.
pub fn push_pair_line(out: &mut String, prefix: &str, a: u32, b: u32)
    ensures
        final(out)@ == old(out)@ + line_of(prefix@, pair_rep(a as nat, b as nat)),
{
    proof {
        reveal_strlit("\n");
        assert("\n"@ =~= seq!['\n']);
    }
    out.append(prefix);
    push_pair(out, a, b);
    out.append("\n");
    proof {
        assert(old(out)@ + prefix@ + pair_rep(a as nat, b as nat) + seq!['\n'] =~= old(out)@
            + line_of(prefix@, pair_rep(a as nat, b as nat)));
    }
}

/// Append a line with a list of quoted strings.
pub fn push_strlist_line(out: &mut String, prefix: &str, xs: &Vec<String>)
    ensures
        final(out)@ == old(out)@ + line_of(prefix@, strlist_rep(xs@.map_values(|t: String| t@))),
{
    proof {
        reveal_strlit("\n");
        assert("\n"@ =~= seq!['\n']);
    }
    out.append(prefix);
    push_strlist(out, xs);
    out.append("\n");
    proof {
        assert(old(out)@ + prefix@ + strlist_rep(xs@.map_values(|t: String| t@)) + seq!['\n']
            =~= old(out)@ + line_of(prefix@, strlist_rep(xs@.map_values(|t: String| t@))));
    }
}

/// Character-by-character string equality.
pub fn str_eq(a: &str, b: &str) -> (r: bool)
    ensures
        r == (a@ == b@),
{
    let n = a.unicode_len();
    let m = b.unicode_len();
    if n != m {
        proof {
            assert(a@ != b@);
        }
        return false;
    }
    let mut k: usize = 0;
    while k < n
        invariant
            0 <= k <= n,
            n == a@.len(),
            n == b@.len(),
            forall|t: int| 0 <= t < k ==> a@[t] == b@[t],
        decreases n - k,
    {
        if a.get_char(k) != b.get_char(k) {
            return false;
        }
        k = k + 1;
    }
    proof {
        assert(a@ =~= b@);
    }
    true
}

} // verus!
