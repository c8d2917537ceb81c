use vstd::prelude::*;

verus! {

// ---------------------------------------------------------------------
// Case-insensitive comparison (ASCII case folding, as the wire protocol
// only ever sends ASCII literals).
// ---------------------------------------------------------------------

/// The code point of `c` with a lower-case ASCII letter folded to its
/// upper-case counterpart.
pub open spec fn upper_code(c: char) -> int {
    let u = c as u32;
    if 97 <= u <= 122 {
        u - 32
    } else {
        u as int
    }
}

/// Two character sequences are equal up to ASCII case.
pub open spec fn eq_icase(s: Seq<char>, t: Seq<char>) -> bool {
    s.len() == t.len() && forall|i: int| 0 <= i < s.len() ==> upper_code(s[i]) == upper_code(#[trigger] t[i])
}

/// The code point of `c`, ASCII-upper-folded.
pub fn char_upper_code(c: char) -> (r: u32)
    ensures
        r == upper_code(c),
{
    let u = c as u32;
    if 97 <= u && u <= 122 {
        u - 32
    } else {
        u
    }
}

/// Compares two strings for equality, character by character.
pub fn str_eq(a: &str, b: &str) -> (r: bool)
    ensures
        r == (a@ == b@),
{
    let an = a.unicode_len();
    let bn = b.unicode_len();
    if an != bn {
        return false;
    }
    let mut i: usize = 0;
    while i < an
        invariant
            0 <= i <= an,
            an == a@.len(),
            an == b@.len(),
            forall|k: int| 0 <= k < i ==> a@[k] == b@[k],
        decreases an - i,
    {
        if a.get_char(i) != b.get_char(i) {
            return false;
        }
        i += 1;
    }
    proof {
        assert(a@ =~= b@);
    }
    true
}

/// Compares two strings for equality up to ASCII case.
pub fn str_eq_icase(a: &str, b: &str) -> (r: bool)
    ensures
        r == eq_icase(a@, b@),
{
    let an = a.unicode_len();
    let bn = b.unicode_len();
    if an != bn {
        return false;
    }
    let mut i: usize = 0;
    while i < an
        invariant
            0 <= i <= an,
            an == a@.len(),
            an == b@.len(),
            forall|k: int| 0 <= k < i ==> upper_code(a@[k]) == upper_code(#[trigger] b@[k]),
        decreases an - i,
    {
        if char_upper_code(a.get_char(i)) != char_upper_code(b.get_char(i)) {
            return false;
        }
        i += 1;
    }
    true
}

// ---------------------------------------------------------------------
// Decimal integers: parsing
// ---------------------------------------------------------------------

/// Whether `c` is a decimal digit.
pub open spec fn is_digit(c: char) -> bool {
    48 <= c as u32 <= 57
}

/// The value of a digit character.
pub open spec fn digit_val(c: char) -> int {
    c as u32 - 48
}

/// The value of a sequence of digit characters, most significant first.
pub open spec fn digits_val(s: Seq<char>) -> int
    decreases s.len(),
{
    if s.len() == 0 {
        0
    } else {
        digits_val(s.drop_last()) * 10 + digit_val(s.last())
    }
}

/// A non-empty, all-digits sequence.
pub open spec fn all_digits(s: Seq<char>) -> bool {
    s.len() > 0 && forall|i: int| 0 <= i < s.len() ==> is_digit(#[trigger] s[i])
}

/// The mathematical value of a decimal integer literal with an optional
/// leading sign, or `None` if the text is not such a literal.
pub open spec fn parse_int_val(s: Seq<char>) -> Option<int> {
    if s.len() == 0 {
        None
    } else if s[0] == '-' {
        if all_digits(s.skip(1)) {
            Some(-digits_val(s.skip(1)))
        } else {
            None
        }
    } else if s[0] == '+' {
        if all_digits(s.skip(1)) {
            Some(digits_val(s.skip(1)))
        } else {
            None
        }
    } else {
        if all_digits(s) {
            Some(digits_val(s))
        } else {
            None
        }
    }
}

/// The mathematical value of an unsigned decimal literal (a leading `+`
/// is accepted, a leading `-` is not), or `None`.
pub open spec fn parse_uint_val(s: Seq<char>) -> Option<int> {
    if s.len() == 0 {
        None
    } else if s[0] == '+' {
        if all_digits(s.skip(1)) {
            Some(digits_val(s.skip(1)))
        } else {
            None
        }
    } else {
        if all_digits(s) {
            Some(digits_val(s))
        } else {
            None
        }
    }
}

/// What `parse_i32` returns: the value of the literal if it is one and
/// fits in an `i32`.
pub open spec fn spec_parse_i32(s: Seq<char>) -> Option<i32> {
    match parse_int_val(s) {
        Some(v) => if i32::MIN <= v <= i32::MAX {
            Some(v as i32)
        } else {
            None
        },
        None => None,
    }
}

/// What `parse_u32` returns.
pub open spec fn spec_parse_u32(s: Seq<char>) -> Option<u32> {
    match parse_uint_val(s) {
        Some(v) => if v <= u32::MAX {
            Some(v as u32)
        } else {
            None
        },
        None => None,
    }
}

/// A value of all digits only grows when digits are appended.
proof fn lemma_digits_val_nonneg(s: Seq<char>)
    requires
        forall|i: int| 0 <= i < s.len() ==> is_digit(#[trigger] s[i]),
    ensures
        digits_val(s) >= 0,
    decreases s.len(),
{
    if s.len() > 0 {
        lemma_digits_val_nonneg(s.drop_last());
    }
}

/// Scans the digit run of a literal: returns the value capped at `cap`,
/// with the second component telling whether the true value exceeds
/// `cap`. Fails (`None`) if any character is not a digit or the run is
/// empty.
fn scan_digits(s: &str, start: usize, cap: u64) -> (r: Option<(u64, bool)>)
    requires
        start <= s@.len(),
        cap < 0x1000_0000_0000_0000u64,
    ensures
        match r {
            Some((mag, over)) => {
                &&& all_digits(s@.skip(start as int))
                &&& !over ==> mag == digits_val(s@.skip(start as int)) && mag <= cap
                &&& over ==> digits_val(s@.skip(start as int)) > cap
            },
            None => !all_digits(s@.skip(start as int)),
        },
{
    let n = s.unicode_len();
    if start >= n {
        return None;
    }
    let mut i = start;
    let mut mag: u64 = 0;
    let mut over = false;
    while i < n
        invariant
            start <= i <= n,
            n == s@.len(),
            cap < 0x1000_0000_0000_0000u64,
            forall|k: int| start <= k < i ==> is_digit(#[trigger] s@[k]),
            !over ==> mag == digits_val(s@.subrange(start as int, i as int)) && mag <= cap,
            over ==> digits_val(s@.subrange(start as int, i as int)) > cap,
        decreases n - i,
    {
        let c = s.get_char(i);
        let u = c as u32;
        if u < 48 || u > 57 {
            proof {
                assert(!is_digit(s@.skip(start as int)[i - start]));
            }
            return None;
        }
        let d = (u - 48) as u64;
        proof {
            assert(s@.subrange(start as int, i + 1).drop_last() =~= s@.subrange(
                start as int,
                i as int,
            ));
            assert(s@.subrange(start as int, i + 1).last() == s@[i as int]);
            lemma_digits_val_nonneg(s@.subrange(start as int, i as int));
        }
        if over {
            proof {
                let prev = digits_val(s@.subrange(start as int, i as int));
                assert(prev * 10 + digit_val(s@[i as int]) > cap) by (nonlinear_arith)
                    requires
                        prev > cap,
                        cap >= 0,
                        digit_val(s@[i as int]) >= 0,
                ;
            }
        } else {
            let nm = mag * 10 + d;
            if nm > cap {
                over = true;
            } else {
                mag = nm;
            }
        }
        i += 1;
    }
    proof {
        assert(s@.subrange(start as int, n as int) =~= s@.skip(start as int));
    }
    Some((mag, over))
}

/// Parses a decimal `i32` with optional sign, exactly as a strict
/// decimal reading of the whole string: `None` on any stray character,
/// an empty string, or a value out of range.
pub fn parse_i32(s: &str) -> (r: Option<i32>)
    ensures
        r == spec_parse_i32(s@),
{
    let n = s.unicode_len();
    if n == 0 {
        return None;
    }
    let c0 = s.get_char(0);
    let neg = c0 == '-';
    let start: usize = if c0 == '-' || c0 == '+' {
        1
    } else {
        0
    };
    let cap: u64 = 0x8000_0000;
    match scan_digits(s, start, cap) {
        None => {
            proof {
                if start == 0 {
                    assert(s@.skip(0) =~= s@);
                }
            }
            None
        },
        Some((mag, over)) => {
            proof {
                if start == 0 {
                    assert(s@.skip(0) =~= s@);
                }
                lemma_digits_val_nonneg(s@.skip(start as int));
            }
            if over {
                None
            } else if neg {
                if mag == cap {
                    Some(i32::MIN)
                } else {
                    Some(-(mag as i32))
                }
            } else {
                if mag >= cap {
                    None
                } else {
                    Some(mag as i32)
                }
            }
        },
    }
}

/// Parses a decimal `u32`: an optional leading `+`, digits, in range.
pub fn parse_u32(s: &str) -> (r: Option<u32>)
    ensures
        r == spec_parse_u32(s@),
{
    let n = s.unicode_len();
    if n == 0 {
        return None;
    }
    let c0 = s.get_char(0);
    if c0 == '-' {
        return None;
    }
    let start: usize = if c0 == '+' {
        1
    } else {
        0
    };
    let cap: u64 = 0xFFFF_FFFF;
    match scan_digits(s, start, cap) {
        None => {
            proof {
                if start == 0 {
                    assert(s@.skip(0) =~= s@);
                }
            }
            None
        },
        Some((mag, over)) => {
            proof {
                if start == 0 {
                    assert(s@.skip(0) =~= s@);
                }
                lemma_digits_val_nonneg(s@.skip(start as int));
            }
            if over {
                None
            } else {
                Some(mag as u32)
            }
        },
    }
}

/// What `parse_bool` returns.
pub open spec fn spec_parse_bool(s: Seq<char>) -> Option<bool> {
    if s == "true"@ {
        Some(true)
    } else if s == "false"@ {
        Some(false)
    } else {
        None
    }
}

/// Parses a boolean: exactly `true` or `false`.
pub fn parse_bool(s: &str) -> (r: Option<bool>)
    ensures
        r == spec_parse_bool(s@),
{
    if str_eq(s, "true") {
        Some(true)
    } else if str_eq(s, "false") {
        Some(false)
    } else {
        None
    }
}

// ---------------------------------------------------------------------
// Decimal integers: rendering
// ---------------------------------------------------------------------

/// The digit character for a value in `0 ..= 9`.
pub open spec fn digit_char(d: int) -> char {
    if d == 0 {
        '0'
    } else if d == 1 {
        '1'
    } else if d == 2 {
        '2'
    } else if d == 3 {
        '3'
    } else if d == 4 {
        '4'
    } else if d == 5 {
        '5'
    } else if d == 6 {
        '6'
    } else if d == 7 {
        '7'
    } else if d == 8 {
        '8'
    } else {
        '9'
    }
}

/// The decimal rendering of a non-negative value, most significant
/// digit first, without leading zeros (`0` renders as `0`).
pub open spec fn dec_str_nat(n: int) -> Seq<char>
    decreases n,
{
    if n < 10 {
        seq![digit_char(n)]
    } else {
        dec_str_nat(n / 10).push(digit_char(n % 10))
    }
}

/// The decimal rendering of a signed value.
pub open spec fn dec_str_int(v: int) -> Seq<char> {
    if v < 0 {
        seq!['-'] + dec_str_nat(-v)
    } else {
        dec_str_nat(v)
    }
}

spec fn low_digit_chars(ds: Seq<u8>) -> Seq<char> {
    ds.map_values(|d: u8| digit_char(d as int))
}

fn append_digit(s: &mut String, d: u8)
    requires
        d < 10,
    ensures
        final(s)@ == old(s)@.push(digit_char(d as int)),
{
    proof {
        reveal_strlit("0");
        reveal_strlit("1");
        reveal_strlit("2");
        reveal_strlit("3");
        reveal_strlit("4");
        reveal_strlit("5");
        reveal_strlit("6");
        reveal_strlit("7");
        reveal_strlit("8");
        reveal_strlit("9");
    }
    match d {
        0 => s.append("0"),
        1 => s.append("1"),
        2 => s.append("2"),
        3 => s.append("3"),
        4 => s.append("4"),
        5 => s.append("5"),
        6 => s.append("6"),
        7 => s.append("7"),
        8 => s.append("8"),
        _ => s.append("9"),
    }
    proof {
        assert(s@ =~= old(s)@.push(digit_char(d as int)));
    }
}

/// Renders a signed 32-bit value in decimal.
pub fn i32_to_string(v: i32) -> (r: String)
    ensures
        r@ == dec_str_int(v as int),
{
    let m64: i64 = v as i64;
    let mag: u64 = if m64 < 0 {
        (-m64) as u64
    } else {
        m64 as u64
    };
    let mut digits: Vec<u8> = Vec::new();
    let mut m = mag;
    while m >= 10
        invariant
            forall|k: int| 0 <= k < digits@.len() ==> #[trigger] digits@[k] < 10,
            dec_str_nat(mag as int) =~= dec_str_nat(m as int) + low_digit_chars(
                digits@,
            ).reverse(),
        decreases m,
    {
        let d = (m % 10) as u8;
        m = m / 10;
        digits.push(d);
        proof {
            assert(low_digit_chars(digits@) =~= low_digit_chars(digits@.drop_last()).push(
                digit_char(d as int),
            ));
            assert(low_digit_chars(digits@).reverse() =~= seq![digit_char(d as int)]
                + low_digit_chars(digits@.drop_last()).reverse());
            assert(dec_str_nat(m as int) + low_digit_chars(digits@).reverse() =~= (dec_str_nat(
                m as int,
            ).push(digit_char(d as int))) + low_digit_chars(digits@.drop_last()).reverse());
        }
    }
    let last_digit = m as u8;
    let mut r = String::new();
    if m64 < 0 {
        proof {
            reveal_strlit("-");
        }
        r.append("-");
        proof {
            assert(r@ =~= seq!['-']);
        }
    }
    append_digit(&mut r, last_digit);
    let ghost base = r@;
    let mut i = digits.len();
    while i > 0
        invariant
            0 <= i <= digits@.len(),
            forall|k: int| 0 <= k < digits@.len() ==> #[trigger] digits@[k] < 10,
            r@ =~= base + low_digit_chars(digits@.skip(i as int)).reverse(),
        decreases i,
    {
        i -= 1;
        let d = digits[i];
        append_digit(&mut r, d);
        proof {
            assert(low_digit_chars(digits@.skip(i as int)) =~= seq![
                digit_char(digits@[i as int] as int),
            ] + low_digit_chars(digits@.skip(i + 1)));
            assert(low_digit_chars(digits@.skip(i as int)).reverse() =~= low_digit_chars(
                digits@.skip(i + 1),
            ).reverse().push(digit_char(digits@[i as int] as int)));
        }
    }
    proof {
        assert(digits@.skip(0) =~= digits@);
        assert(r@ =~= base + low_digit_chars(digits@).reverse());
        assert(dec_str_nat(mag as int) =~= seq![digit_char(m as int)] + low_digit_chars(
            digits@,
        ).reverse());
        assert(base =~= (if m64 < 0 {
            seq!['-']
        } else {
            Seq::<char>::empty()
        }) + seq![digit_char(m as int)]);
        assert(r@ =~= dec_str_int(v as int));
    }
    r
}

/// Renders a boolean as `true` or `false`.
pub fn bool_to_string(v: bool) -> (r: String)
    ensures
        v ==> r@ == "true"@,
        !v ==> r@ == "false"@,
{
    if v {
        String::from_str("true")
    } else {
        String::from_str("false")
    }
}


// ---------------------------------------------------------------------
// Trimming and splitting, for the ASCII grid parser
// ---------------------------------------------------------------------

/// ASCII whitespace as it occurs in grid art: spaces, tabs, carriage
/// returns.
pub open spec fn is_ws(c: char) -> bool {
    c == ' ' || c == '\t' || c == '\r'
}

/// The first index at or after `from` that is not whitespace, or the
/// length.
pub open spec fn ws_front(s: Seq<char>, from: int) -> int
    decreases s.len() - from,
{
    if from < 0 || from >= s.len() {
        s.len() as int
    } else if is_ws(s[from]) {
        ws_front(s, from + 1)
    } else {
        from
    }
}

/// One past the last index before `upto` that is not whitespace, or
/// zero.
pub open spec fn ws_back(s: Seq<char>, upto: int) -> int
    decreases upto,
{
    if upto <= 0 || upto > s.len() {
        0
    } else if is_ws(s[upto - 1]) {
        ws_back(s, upto - 1)
    } else {
        upto
    }
}

/// `s` with leading and trailing whitespace removed.
pub open spec fn spec_trim(s: Seq<char>) -> Seq<char> {
    let i = ws_front(s, 0);
    let j = ws_back(s, s.len() as int);
    if i <= j {
        s.subrange(i, j)
    } else {
        Seq::empty()
    }
}

proof fn lemma_ws_front_bounds(s: Seq<char>, from: int)
    requires
        0 <= from <= s.len(),
    ensures
        from <= ws_front(s, from) <= s.len(),
        forall|k: int| from <= k < ws_front(s, from) ==> is_ws(#[trigger] s[k]),
        ws_front(s, from) < s.len() ==> !is_ws(s[ws_front(s, from)]),
    decreases s.len() - from,
{
    if from < s.len() && is_ws(s[from]) {
        lemma_ws_front_bounds(s, from + 1);
    }
}

proof fn lemma_ws_back_bounds(s: Seq<char>, upto: int)
    requires
        0 <= upto <= s.len(),
    ensures
        0 <= ws_back(s, upto) <= upto,
        forall|k: int| ws_back(s, upto) <= k < upto ==> is_ws(#[trigger] s[k]),
        ws_back(s, upto) > 0 ==> !is_ws(s[ws_back(s, upto) - 1]),
    decreases upto,
{
    if upto > 0 && is_ws(s[upto - 1]) {
        lemma_ws_back_bounds(s, upto - 1);
    }
}

fn is_ws_exec(c: char) -> (r: bool)
    ensures
        r == is_ws(c),
{
    c == ' ' || c == '\t' || c == '\r'
}

/// Removes leading and trailing whitespace.
pub fn trim(s: &str) -> (r: &str)
    ensures
        r@ == spec_trim(s@),
{
    let n = s.unicode_len();
    let mut i: usize = 0;
    while i < n && is_ws_exec(s.get_char(i))
        invariant
            0 <= i <= n,
            n == s@.len(),
            ws_front(s@, 0) == ws_front(s@, i as int),
            forall|k: int| 0 <= k < i ==> is_ws(#[trigger] s@[k]),
        decreases n - i,
    {
        i += 1;
    }
    proof {
        assert(ws_front(s@, 0) == i as int);
    }
    let mut j: usize = n;
    while j > i && is_ws_exec(s.get_char(j - 1))
        invariant
            i <= j <= n,
            n == s@.len(),
            i as int == ws_front(s@, 0),
            ws_back(s@, n as int) == ws_back(s@, j as int),
            forall|k: int| j <= k < n ==> is_ws(#[trigger] s@[k]),
        decreases j,
    {
        j -= 1;
    }
    proof {
        lemma_ws_front_bounds(s@, 0);
        if j > i {
            assert(!is_ws(s@[j - 1]));
            assert(ws_back(s@, j as int) == j as int);
            assert(spec_trim(s@) =~= s@.subrange(i as int, j as int));
        } else {
            // everything from `i` on is whitespace, so `i` reached the
            // end and the trim is empty
            if (i as int) < s@.len() {
                assert(is_ws(s@[i as int]));
                assert(false);
            }
            assert(i == n && j == n);
            lemma_ws_back_bounds(s@, s@.len() as int);
            assert(s@.subrange(i as int, j as int) =~= Seq::<char>::empty());
            let jb = ws_back(s@, s@.len() as int);
            if jb >= i as int {
                assert(jb == i as int);
                assert(spec_trim(s@) =~= s@.subrange(i as int, i as int));
            }
            assert(spec_trim(s@) =~= s@.subrange(i as int, j as int));
        }
    }
    s.substring_char(i, j)
}

/// The index of the first occurrence of `sep` at or after `from`, or
/// the length.
pub open spec fn next_sep(s: Seq<char>, sep: char, from: int) -> int
    decreases s.len() - from,
{
    if from < 0 || from >= s.len() {
        s.len() as int
    } else if s[from] == sep {
        from
    } else {
        next_sep(s, sep, from + 1)
    }
}

/// The segments of `s` from `from` on, split at `sep`.
pub open spec fn split_from(s: Seq<char>, sep: char, from: int) -> Seq<Seq<char>>
    decreases s.len() - from,
        via split_from_decreases
{
    if from < 0 {
        Seq::empty()
    } else {
        let e = next_sep(s, sep, from);
        if e >= s.len() {
            seq![s.subrange(from, s.len() as int)]
        } else {
            seq![s.subrange(from, e)] + split_from(s, sep, e + 1)
        }
    }
}

#[via_fn]
proof fn split_from_decreases(s: Seq<char>, sep: char, from: int) {
    if 0 <= from <= s.len() {
        lemma_next_sep_bounds(s, sep, from);
    }
}

/// All segments of `s`, split at `sep`. An empty string has one empty
/// segment, as `str::split` yields it.
pub open spec fn spec_split(s: Seq<char>, sep: char) -> Seq<Seq<char>> {
    split_from(s, sep, 0)
}

pub proof fn lemma_next_sep_bounds(s: Seq<char>, sep: char, from: int)
    requires
        0 <= from <= s.len(),
    ensures
        from <= next_sep(s, sep, from) <= s.len(),
        forall|k: int| from <= k < next_sep(s, sep, from) ==> #[trigger] s[k] != sep,
        next_sep(s, sep, from) < s.len() ==> s[next_sep(s, sep, from)] == sep,
    decreases s.len() - from,
{
    if from < s.len() && s[from] != sep {
        lemma_next_sep_bounds(s, sep, from + 1);
    }
}

/// Splits a string at a separator character; the separator is not part
/// of any segment, and adjacent separators yield empty segments.
pub fn split_char(s: &str, sep: char) -> (r: Vec<String>)
    ensures
        r@.map_values(|t: String| t@) =~= spec_split(s@, sep),
{
    let n = s.unicode_len();
    let mut r: Vec<String> = Vec::new();
    let mut start: usize = 0;
    loop
        invariant_except_break
            0 <= start <= n,
            n == s@.len(),
            spec_split(s@, sep) =~= r@.map_values(|t: String| t@) + split_from(
                s@,
                sep,
                start as int,
            ),
        ensures
            r@.map_values(|t: String| t@) =~= spec_split(s@, sep),
        decreases n - start + 1,
    {
        let ghost r_old = r@;
        let mut e: usize = start;
        while e < n && s.get_char(e) != sep
            invariant
                start <= e <= n,
                n == s@.len(),
                next_sep(s@, sep, start as int) == next_sep(s@, sep, e as int),
                forall|k: int| start <= k < e ==> #[trigger] s@[k] != sep,
            decreases n - e,
        {
            e += 1;
        }
        proof {
            assert(next_sep(s@, sep, start as int) == e as int);
        }
        let seg = s.substring_char(start, e).to_owned();
        r.push(seg);
        proof {
            assert(r@.map_values(|t: String| t@) =~= r_old.map_values(|t: String| t@).push(
                s@.subrange(start as int, e as int),
            ));
        }
        if e == n {
            proof {
                assert(split_from(s@, sep, start as int) =~= seq![
                    s@.subrange(start as int, n as int),
                ]);
                assert(r@.map_values(|t: String| t@) =~= spec_split(s@, sep));
            }
            break;
        }
        proof {
            assert(split_from(s@, sep, start as int) =~= seq![
                s@.subrange(start as int, e as int),
            ] + split_from(s@, sep, e + 1));
        }
        start = e + 1;
    }
    r
}



/// Trimming never lengthens a sequence.
pub proof fn lemma_trim_len(s: Seq<char>)
    ensures
        spec_trim(s).len() <= s.len(),
{
    lemma_ws_front_bounds(s, 0);
    lemma_ws_back_bounds(s, s.len() as int);
}

/// A split has at most one more segment than separators fit, and each
/// segment is no longer than the input.
pub proof fn lemma_split_count(s: Seq<char>, sep: char)
    ensures
        spec_split(s, sep).len() <= s.len() + 1,
        forall|k: int|
            0 <= k < spec_split(s, sep).len() ==> (#[trigger] spec_split(s, sep)[k]).len()
                <= s.len(),
{
    lemma_split_segment_lens(s, sep, 0);
}

/// Every line of a split is no longer than the input.
pub proof fn lemma_split_lens(s: Seq<char>, sep: char)
    ensures
        forall|k: int|
            0 <= k < spec_split(s, sep).len() ==> (#[trigger] spec_split(s, sep)[k]).len()
                <= s.len(),
{
    lemma_split_segment_lens(s, sep, 0);
}

proof fn lemma_split_segment_lens(s: Seq<char>, sep: char, from: int)
    requires
        0 <= from <= s.len(),
    ensures
        split_from(s, sep, from).len() <= s.len() - from + 1,
        forall|k: int|
            0 <= k < split_from(s, sep, from).len() ==> (#[trigger] split_from(s, sep, from)[
                k
            ]).len() <= s.len() - from,
    decreases s.len() - from,
{
    lemma_next_sep_bounds(s, sep, from);
    let e = next_sep(s, sep, from);
    if e < s.len() {
        lemma_split_segment_lens(s, sep, e + 1);
    }
}


} // verus!
