//! Character-level helpers shared by the codec and the query engine:
//! whitespace trimming, decimal and hexadecimal rendering and parsing,
//! comma splitting and joining, all specified over `Seq<char>`.

use vstd::prelude::*;

verus! {

/// The Unicode `White_Space` set, the class used by `str::trim`.
pub open spec fn is_space(c: char) -> bool {
    let u = c as u32;
    (0x09 <= u && u <= 0x0D) || u == 0x20 || u == 0x85 || u == 0xA0 || u == 0x1680
        || (0x2000 <= u && u <= 0x200A) || u == 0x2028 || u == 0x2029 || u == 0x202F
        || u == 0x205F || u == 0x3000
}

/// Executable test for [`is_space`].
pub fn is_space_char(c: char) -> (r: bool)
    ensures
        r == is_space(c),
{
    let u = c as u32;
    (0x09 <= u && u <= 0x0D) || u == 0x20 || u == 0x85 || u == 0xA0 || u == 0x1680
        || (0x2000 <= u && u <= 0x200A) || u == 0x2028 || u == 0x2029 || u == 0x202F
        || u == 0x205F || u == 0x3000
}

/// Relies on std's `String::push`: appends the given character to the string.
#[verifier::external_body]
pub fn push_char(s: &mut String, c: char)
    ensures
        final(s)@ == old(s)@.push(c),
{
    s.push(c);
}

/// Copies the characters of a string slice into a vector.
pub fn str_to_chars(s: &str) -> (v: Vec<char>)
    ensures
        v@ == s@,
{
    let n = s.unicode_len();
    let mut v: Vec<char> = Vec::new();
    let mut i: usize = 0;
    while i < n
        invariant
            i <= n,
            n == s@.len(),
            v@ == s@.subrange(0, i as int),
        decreases n - i,
    {
        let c = s.get_char(i);
        v.push(c);
        i = i + 1;
        proof {
            assert(v@ =~= s@.subrange(0, i as int));
        }
    }
    proof {
        assert(v@ =~= s@);
    }
    v
}

/// Builds an owned string out of a character vector.
pub fn chars_to_string(v: &Vec<char>) -> (s: String)
    ensures
        s@ == v@,
{
    let mut s = String::new();
    let mut i: usize = 0;
    while i < v.len()
        invariant
            i <= v.len(),
            s@ == v@.subrange(0, i as int),
        decreases v.len() - i,
    {
        push_char(&mut s, v[i]);
        i = i + 1;
        proof {
            assert(s@ =~= v@.subrange(0, i as int));
        }
    }
    proof {
        assert(s@ =~= v@);
    }
    s
}

/// An owned copy of the characters `i..j` of a vector.
pub fn vec_slice_string(v: &Vec<char>, i: usize, j: usize) -> (s: String)
    requires
        i <= j <= v@.len(),
    ensures
        s@ == v@.subrange(i as int, j as int),
{
    let mut s = String::new();
    let mut k: usize = i;
    while k < j
        invariant
            i <= k <= j <= v@.len(),
            s@ == v@.subrange(i as int, k as int),
        decreases j - k,
    {
        push_char(&mut s, v[k]);
        k = k + 1;
        proof {
            assert(s@ =~= v@.subrange(i as int, k as int));
        }
    }
    s
}

/// Character-wise string equality, specified over the views.
pub fn str_eq(a: &str, b: &str) -> (r: bool)
    ensures
        r == (a@ == b@),
{
    let na = a.unicode_len();
    let nb = b.unicode_len();
    if na != nb {
        return false;
    }
    let mut i: usize = 0;
    while i < na
        invariant
            i <= na,
            na == a@.len(),
            na == b@.len(),
            a@.subrange(0, i as int) == b@.subrange(0, i as int),
        decreases na - i,
    {
        let ca = a.get_char(i);
        let cb = b.get_char(i);
        if ca != cb {
            proof {
                assert(a@[i as int] != b@[i as int]);
            }
            return false;
        }
        i = i + 1;
        proof {
            assert(a@.subrange(0, i as int) =~= b@.subrange(0, i as int));
        }
    }
    proof {
        assert(a@.subrange(0, na as int) =~= a@);
        assert(b@.subrange(0, na as int) =~= b@);
    }
    true
}

/// Number of leading characters of `s` that satisfy spaces (`nul` chooses
/// the `'\0'` class instead of whitespace).
pub open spec fn leading_in_class(s: Seq<char>, nul: bool) -> int
    decreases s.len(),
{
    if s.len() == 0 {
        0
    } else if in_class(s[0], nul) {
        1 + leading_in_class(s.drop_first(), nul)
    } else {
        0
    }
}

/// Membership in the trimming class: whitespace, or `'\0'`.
pub open spec fn in_class(c: char, nul: bool) -> bool {
    if nul {
        c == '\0'
    } else {
        is_space(c)
    }
}

pub proof fn lemma_leading_in_class_bounds(s: Seq<char>, nul: bool)
    ensures
        0 <= leading_in_class(s, nul) <= s.len(),
        forall|i: int| 0 <= i < leading_in_class(s, nul) ==> in_class(s[i], nul),
        leading_in_class(s, nul) < s.len() ==> !in_class(s[leading_in_class(s, nul)], nul),
    decreases s.len(),
{
    if s.len() != 0 && in_class(s[0], nul) {
        lemma_leading_in_class_bounds(s.drop_first(), nul);
        assert forall|i: int| 0 <= i < leading_in_class(s, nul) implies in_class(s[i], nul) by {
            if i > 0 {
                assert(s.drop_first()[i - 1] == s[i]);
            }
        }
        if leading_in_class(s, nul) < s.len() {
            assert(s.drop_first()[leading_in_class(s, nul) - 1] == s[leading_in_class(s, nul)]);
        }
    }
}

/// Number of trailing characters of `s` in the class.
pub open spec fn trailing_in_class(s: Seq<char>, nul: bool) -> int {
    leading_in_class(s.reverse(), nul)
}

/// `s` with leading and trailing class characters removed.
pub open spec fn trim_class(s: Seq<char>, nul: bool) -> Seq<char> {
    let lead = leading_in_class(s, nul);
    if lead == s.len() {
        Seq::empty()
    } else {
        s.subrange(lead, s.len() - trailing_in_class(s, nul))
    }
}

/// What `str::trim().trim_matches('\0')` leaves of a raw line.
pub open spec fn trim_line(s: Seq<char>) -> Seq<char> {
    trim_class(trim_class(s, false), true)
}

/// Index of the first class character counted from position `from`.
fn scan_class(v: &Vec<char>, from: usize, nul: bool) -> (r: usize)
    requires
        from <= v@.len(),
    ensures
        r == from + leading_in_class(v@.skip(from as int), nul),
        from <= r <= v@.len(),
    decreases v@.len() - from,
{
    proof {
        lemma_leading_in_class_bounds(v@.skip(from as int), nul);
    }
    if from == v.len() {
        return from;
    }
    let c = v[from];
    let hit = if nul {
        c == '\0'
    } else {
        is_space_char(c)
    };
    if hit {
        proof {
            assert(v@.skip(from as int).drop_first() =~= v@.skip(from as int + 1));
        }
        scan_class(v, from + 1, nul)
    } else {
        from
    }
}

/// Class membership of the character at one position.
fn class_at(v: &Vec<char>, i: usize, nul: bool) -> (r: bool)
    requires
        i < v@.len(),
    ensures
        r == in_class(v@[i as int], nul),
{
    let c = v[i];
    if nul {
        c == '\0'
    } else {
        is_space_char(c)
    }
}

/// One-sided and two-sided trimming over character vectors.
fn trim_vec_class(v: &Vec<char>, nul: bool) -> (r: Vec<char>)
    ensures
        r@ == trim_class(v@, nul),
{
    proof {
        assert(v@.skip(0) =~= v@);
        lemma_leading_in_class_bounds(v@, nul);
    }
    let lead = scan_class(v, 0, nul);
    if lead == v.len() {
        return Vec::new();
    }
    // Find the end: walk back over trailing class characters.
    let mut end: usize = v.len();
    while end > lead && class_at(v, end - 1, nul)
        invariant
            lead <= end <= v@.len(),
            lead == leading_in_class(v@, nul),
            lead < v@.len(),
            !in_class(v@[lead as int], nul),
            forall|i: int| end <= i < v@.len() ==> in_class(v@[i], nul),
        decreases end,
    {
        end = end - 1;
    }
    proof {
        if end == lead {
            assert(in_class(v@[lead as int], nul));
            assert(false);
        }
        assert forall|i: int| 0 <= i < v@.len() - end implies in_class(
            v@.reverse()[i],
            nul,
        ) by {
            assert(v@.reverse()[i] == v@[v@.len() - 1 - i]);
        }
        assert(v@.reverse()[v@.len() - end] == v@[end - 1]);
        lemma_leading_run_stops(v@.reverse(), nul, v@.len() - end);
    }
    let mut r: Vec<char> = Vec::new();
    let mut i: usize = lead;
    while i < end
        invariant
            lead <= i <= end <= v@.len(),
            r@ == v@.subrange(lead as int, i as int),
        decreases end - i,
    {
        r.push(v[i]);
        i = i + 1;
        proof {
            assert(r@ =~= v@.subrange(lead as int, i as int));
        }
    }
    proof {
        assert(trailing_in_class(v@, nul) == v@.len() - end);
        assert(r@ =~= trim_class(v@, nul));
    }
    r
}

/// If every position before `k` is in the class, the leading run reaches `k`.
proof fn lemma_leading_run_extends(s: Seq<char>, nul: bool, k: int)
    requires
        0 <= k <= s.len(),
        forall|i: int| 0 <= i < k ==> in_class(s[i], nul),
    ensures
        leading_in_class(s, nul) >= k,
    decreases k,
{
    lemma_leading_in_class_bounds(s, nul);
    if k > 0 {
        assert(in_class(s[0], nul));
        assert forall|i: int| 0 <= i < k - 1 implies in_class(s.drop_first()[i], nul) by {
            assert(s.drop_first()[i] == s[i + 1]);
        }
        lemma_leading_run_extends(s.drop_first(), nul, k - 1);
        assert(leading_in_class(s, nul) == 1 + leading_in_class(s.drop_first(), nul));
    }
}

/// If every position before `k` is in the class and position `k` is not,
/// the leading run is exactly `k`.
proof fn lemma_leading_run_stops(s: Seq<char>, nul: bool, k: int)
    requires
        0 <= k < s.len(),
        forall|i: int| 0 <= i < k ==> in_class(s[i], nul),
        !in_class(s[k], nul),
    ensures
        leading_in_class(s, nul) == k,
{
    lemma_leading_run_extends(s, nul, k);
    lemma_leading_in_class_bounds(s, nul);
    if leading_in_class(s, nul) > k {
        assert(in_class(s[k], nul));
    }
}

/// `str::trim().trim_matches('\0')` over a character vector.
pub fn trim_line_vec(v: &Vec<char>) -> (r: Vec<char>)
    ensures
        r@ == trim_line(v@),
{
    let ws = trim_vec_class(v, false);
    trim_vec_class(&ws, true)
}

/// Leading whitespace count, executable, over a string slice.
pub fn scan_space_str(s: &str, from: usize) -> (r: usize)
    requires
        from <= s@.len(),
    ensures
        r == from + leading_in_class(s@.skip(from as int), false),
        from <= r <= s@.len(),
    decreases s@.len() - from,
{
    proof {
        lemma_leading_in_class_bounds(s@.skip(from as int), false);
    }
    if from == s.unicode_len() {
        return from;
    }
    let c = s.get_char(from);
    if is_space_char(c) {
        proof {
            assert(s@.skip(from as int).drop_first() =~= s@.skip(from as int + 1));
        }
        scan_space_str(s, from + 1)
    } else {
        from
    }
}

/// The character for one decimal digit.
pub open spec fn digit_char(d: nat) -> char {
    if d == 0 { '0' } else if d == 1 { '1' } else if d == 2 { '2' } else if d == 3 { '3' }
    else if d == 4 { '4' } else if d == 5 { '5' } else if d == 6 { '6' } else if d == 7 { '7' }
    else if d == 8 { '8' } else { '9' }
}

/// Decimal rendering of a natural number, as `u64::to_string` writes it.
pub open spec fn dec_digits(n: nat) -> Seq<char>
    decreases n,
{
    if n < 10 {
        seq![digit_char(n)]
    } else {
        dec_digits(n / 10).push(digit_char(n % 10))
    }
}

fn digit_char_exec(d: u64) -> (c: char)
    requires
        d < 10,
    ensures
        c == digit_char(d as nat),
{
    if d == 0 { '0' } else if d == 1 { '1' } else if d == 2 { '2' } else if d == 3 { '3' }
    else if d == 4 { '4' } else if d == 5 { '5' } else if d == 6 { '6' } else if d == 7 { '7' }
    else if d == 8 { '8' } else { '9' }
}

/// Appends the decimal rendering of `n` to `s`.
pub fn push_dec(s: &mut String, n: u64)
    ensures
        final(s)@ == old(s)@ + dec_digits(n as nat),
    decreases n,
{
    if n < 10 {
        push_char(s, digit_char_exec(n));
        proof {
            assert(final(s)@ =~= old(s)@ + dec_digits(n as nat));
        }
    } else {
        proof {
            assert(n / 10 < n) by (nonlinear_arith)
                requires
                    n >= 10,
            ;
        }
        push_dec(s, n / 10);
        push_char(s, digit_char_exec(n % 10));
        proof {
            assert(final(s)@ =~= old(s)@ + dec_digits(n as nat));
        }
    }
}

/// Decimal rendering of a `u64` as an owned string.
pub fn u64_to_string(n: u64) -> (r: String)
    ensures
        r@ == dec_digits(n as nat),
{
    let mut s = String::new();
    push_dec(&mut s, n);
    proof {
        assert(s@ =~= dec_digits(n as nat));
    }
    s
}

/// The character for one hexadecimal digit, lower or upper case.
pub open spec fn hex_char(d: nat, upper: bool) -> char {
    if d < 10 {
        digit_char(d)
    } else if d == 10 { if upper { 'A' } else { 'a' }
    } else if d == 11 { if upper { 'B' } else { 'b' }
    } else if d == 12 { if upper { 'C' } else { 'c' }
    } else if d == 13 { if upper { 'D' } else { 'd' }
    } else if d == 14 { if upper { 'E' } else { 'e' }
    } else { if upper { 'F' } else { 'f' } }
}

/// Fixed-width hexadecimal rendering of `v mod 16^width`.
pub open spec fn hex_fixed(v: nat, width: nat, upper: bool) -> Seq<char>
    decreases width,
{
    if width == 0 {
        Seq::empty()
    } else {
        hex_fixed(v / 16, (width - 1) as nat, upper).push(hex_char(v % 16, upper))
    }
}

/// Natural-width hexadecimal rendering of `v`.
pub open spec fn hex_digits(v: nat, upper: bool) -> Seq<char>
    decreases v,
{
    if v < 16 {
        seq![hex_char(v, upper)]
    } else {
        hex_digits(v / 16, upper).push(hex_char(v % 16, upper))
    }
}

/// What `format!("{:04X}", c)` produces: four zero-padded uppercase
/// digits, or the natural width when the value needs more.
pub open spec fn color_digits(c: nat) -> Seq<char> {
    if c < 0x10000 {
        hex_fixed(c, 4, true)
    } else {
        hex_digits(c, true)
    }
}

fn hex_char_exec(d: u128, upper: bool) -> (c: char)
    requires
        d < 16,
    ensures
        c == hex_char(d as nat, upper),
{
    if d == 0 { '0' } else if d == 1 { '1' } else if d == 2 { '2' } else if d == 3 { '3' }
    else if d == 4 { '4' } else if d == 5 { '5' } else if d == 6 { '6' } else if d == 7 { '7' }
    else if d == 8 { '8' } else if d == 9 { '9' }
    else if d == 10 { if upper { 'A' } else { 'a' }
    } else if d == 11 { if upper { 'B' } else { 'b' }
    } else if d == 12 { if upper { 'C' } else { 'c' }
    } else if d == 13 { if upper { 'D' } else { 'd' }
    } else if d == 14 { if upper { 'E' } else { 'e' }
    } else { if upper { 'F' } else { 'f' } }
}

/// Appends the fixed-width hexadecimal rendering of `v`.
pub fn push_hex_fixed(s: &mut String, v: u128, width: usize, upper: bool)
    ensures
        final(s)@ == old(s)@ + hex_fixed(v as nat, width as nat, upper),
    decreases width,
{
    if width == 0 {
        proof {
            assert(final(s)@ =~= old(s)@ + hex_fixed(v as nat, width as nat, upper));
        }
    } else {
        push_hex_fixed(s, v / 16, width - 1, upper);
        push_char(s, hex_char_exec(v % 16, upper));
        proof {
            assert(final(s)@ =~= old(s)@ + hex_fixed(v as nat, width as nat, upper));
        }
    }
}

/// Appends the natural-width hexadecimal rendering of `v`.
pub fn push_hex_digits(s: &mut String, v: u64, upper: bool)
    ensures
        final(s)@ == old(s)@ + hex_digits(v as nat, upper),
    decreases v,
{
    if v < 16 {
        push_char(s, hex_char_exec(v as u128, upper));
        proof {
            assert(final(s)@ =~= old(s)@ + hex_digits(v as nat, upper));
        }
    } else {
        proof {
            assert(v / 16 < v) by (nonlinear_arith)
                requires
                    v >= 16,
            ;
        }
        push_hex_digits(s, v / 16, upper);
        push_char(s, hex_char_exec((v % 16) as u128, upper));
        proof {
            assert(final(s)@ =~= old(s)@ + hex_digits(v as nat, upper));
        }
    }
}

/// The tag value the encoder writes for a stored color.
pub fn color_to_string(c: u32) -> (r: String)
    ensures
        r@ == seq!['#'] + color_digits(c as nat),
{
    let mut s = String::new();
    push_char(&mut s, '#');
    if c < 0x10000 {
        push_hex_fixed(&mut s, c as u128, 4, true);
    } else {
        push_hex_digits(&mut s, c as u64, true);
    }
    proof {
        assert(s@ =~= seq!['#'] + color_digits(c as nat));
    }
    s
}

/// Hexadecimal digit test and value.
pub open spec fn is_hex_digit(c: char) -> bool {
    ('0' <= c && c <= '9') || ('a' <= c && c <= 'f') || ('A' <= c && c <= 'F')
}

pub open spec fn hex_val(c: char) -> nat {
    if '0' <= c && c <= '9' {
        (c as u32 - '0' as u32) as nat
    } else if 'a' <= c && c <= 'f' {
        (c as u32 - 'a' as u32 + 10) as nat
    } else {
        (c as u32 - 'A' as u32 + 10) as nat
    }
}

/// Value of a string of hexadecimal digits, most significant first.
pub open spec fn hex_value(s: Seq<char>) -> nat
    decreases s.len(),
{
    if s.len() == 0 {
        0
    } else {
        hex_value(s.drop_last()) * 16 + hex_val(s.last())
    }
}

pub open spec fn all_hex(s: Seq<char>) -> bool {
    forall|i: int| 0 <= i < s.len() ==> is_hex_digit(#[trigger] s[i])
}

/// The digits of a hexadecimal numeral after its optional `'+'` sign.
pub open spec fn hex_numeral_digits(s: Seq<char>) -> Seq<char> {
    if s.len() > 0 && s[0] == '+' {
        s.drop_first()
    } else {
        s
    }
}

/// What `u32::from_str_radix(s, 16).ok()` returns: an optional leading
/// `'+'`, then at least one hexadecimal digit, value below 2^32.
pub open spec fn hex_u32_of(s: Seq<char>) -> Option<u32> {
    let digits = hex_numeral_digits(s);
    if digits.len() == 0 || !all_hex(digits) || hex_value(digits) > 0xFFFF_FFFF {
        None
    } else {
        Some(hex_value(digits) as u32)
    }
}

/// Appending digits never shrinks the value.
proof fn lemma_hex_value_tail_ge(s: Seq<char>, i: int)
    requires
        0 <= i <= s.len(),
    ensures
        hex_value(s) >= hex_value(s.take(i)),
    decreases s.len() - i,
{
    if i < s.len() {
        assert(s.take(i + 1).drop_last() =~= s.take(i));
        assert(hex_value(s.take(i + 1)) == hex_value(s.take(i)) * 16 + hex_val(s.take(i + 1).last()));
        assert(hex_value(s.take(i)) * 16 >= hex_value(s.take(i))) by (nonlinear_arith);
        lemma_hex_value_tail_ge(s, i + 1);
    } else {
        assert(s.take(i) =~= s);
    }
}

fn is_hex_digit_exec(c: char) -> (r: bool)
    ensures
        r == is_hex_digit(c),
{
    ('0' <= c && c <= '9') || ('a' <= c && c <= 'f') || ('A' <= c && c <= 'F')
}

/// `u32::from_str_radix(s, 16).ok()`, written out and verified against
/// [`hex_u32_of`].
pub fn parse_hex_u32(s: &str) -> (r: Option<u32>)
    ensures
        r == hex_u32_of(s@),
{
    let n = s.unicode_len();
    let mut start: usize = 0;
    if n > 0 && s.get_char(0) == '+' {
        start = 1;
    }
    let ghost digits = hex_numeral_digits(s@);
    proof {
        assert(digits =~= s@.skip(start as int));
    }
    if start == n {
        return None;
    }
    let mut acc: u64 = 0;
    let mut i: usize = start;
    while i < n
        invariant
            start <= i <= n,
            n == s@.len(),
            start < n,
            digits == hex_numeral_digits(s@),
            digits == s@.skip(start as int),
            acc == hex_value(digits.take(i - start)),
            acc <= 0xFFFF_FFFF,
            all_hex(digits.take(i - start)),
        decreases n - i,
    {
        let c = s.get_char(i);
        if !is_hex_digit_exec(c) {
            proof {
                assert(digits[i - start] == s@[i as int]);
                assert(!is_hex_digit(digits[i - start]));
                assert(!all_hex(digits));
                assert(hex_u32_of(s@) is None);
            }
            return None;
        }
        let d: u64 = {
            let u = c as u32;
            if 48 <= u && u <= 57 {
                (u - 48) as u64
            } else if 97 <= u && u <= 102 {
                (u - 97 + 10) as u64
            } else {
                (u - 65 + 10) as u64
            }
        };
        proof {
            assert(d as nat == hex_val(s@[i as int]));
        }
        let next = acc * 16 + d;
        proof {
            assert(digits.take(i - start + 1).drop_last() =~= digits.take(i - start));
            assert(digits.take(i - start + 1).last() == s@[i as int]);
        }
        if next > 0xFFFF_FFFF {
            proof {
                assert(hex_value(digits.take(i - start + 1)) == acc * 16 + d);
                lemma_hex_value_tail_ge(digits, i - start + 1);
                assert(hex_value(digits) > 0xFFFF_FFFF);
                assert(hex_u32_of(s@) is None);
            }
            return None;
        }
        acc = next;
        i = i + 1;
        proof {
            assert forall|j: int| 0 <= j < i - start implies is_hex_digit(
                #[trigger] digits.take(i - start)[j],
            ) by {
                if j < i - start - 1 {
                    assert(digits.take(i - start - 1)[j] == digits.take(i - start)[j]);
                }
            }
        }
    }
    proof {
        assert(digits.take(n - start) =~= digits);
        assert(all_hex(digits));
        assert(hex_value(digits) == acc);
        assert(hex_u32_of(s@) == Some(acc as u32));
    }
    Some(acc as u32)
}

/// Powers of sixteen.
pub open spec fn pow16(w: nat) -> nat
    decreases w,
{
    if w == 0 {
        1
    } else {
        16 * pow16((w - 1) as nat)
    }
}

/// Every hexadecimal digit character parses back to its value and is
/// neither a hash nor a sign.
proof fn lemma_hex_char_val(d: nat, upper: bool)
    requires
        d < 16,
    ensures
        is_hex_digit(hex_char(d, upper)),
        hex_val(hex_char(d, upper)) == d,
        hex_char(d, upper) != '#',
        hex_char(d, upper) != '+',
{
}

/// Fixed-width rendering writes exactly the value back.
pub proof fn lemma_hex_fixed_value(v: nat, w: nat, upper: bool)
    requires
        v < pow16(w),
    ensures
        hex_value(hex_fixed(v, w, upper)) == v,
        hex_fixed(v, w, upper).len() == w,
        all_hex(hex_fixed(v, w, upper)),
    decreases w,
{
    if w == 0 {
        assert(hex_fixed(v, w, upper) =~= Seq::<char>::empty());
    } else {
        assert(pow16(w) == 16 * pow16((w - 1) as nat));
        assert(v / 16 < pow16((w - 1) as nat)) by (nonlinear_arith)
            requires
                v < 16 * pow16((w - 1) as nat),
        ;
        lemma_hex_fixed_value(v / 16, (w - 1) as nat, upper);
        let rest = hex_fixed(v / 16, (w - 1) as nat, upper);
        let c = hex_char(v % 16, upper);
        lemma_hex_char_val(v % 16, upper);
        assert(hex_fixed(v, w, upper) == rest.push(c));
        assert(rest.push(c).drop_last() =~= rest);
        assert(hex_value(rest.push(c)) == hex_value(rest) * 16 + hex_val(c));
        assert forall|i: int| 0 <= i < rest.push(c).len() implies is_hex_digit(
            #[trigger] rest.push(c)[i],
        ) by {
            if i < rest.len() {
                assert(rest.push(c)[i] == rest[i]);
            }
        }
    }
}

/// Natural-width rendering writes exactly the value back.
pub proof fn lemma_hex_digits_value(v: nat, upper: bool)
    ensures
        hex_value(hex_digits(v, upper)) == v,
        hex_digits(v, upper).len() >= 1,
        all_hex(hex_digits(v, upper)),
    decreases v,
{
    if v < 16 {
        lemma_hex_char_val(v, upper);
        assert(hex_digits(v, upper) == seq![hex_char(v, upper)]);
        assert(seq![hex_char(v, upper)].drop_last() =~= Seq::<char>::empty());
        assert(seq![hex_char(v, upper)].last() == hex_char(v, upper));
        assert(hex_value(Seq::<char>::empty()) == 0);
        assert(hex_value(seq![hex_char(v, upper)]) == hex_value(Seq::<char>::empty()) * 16
            + hex_val(hex_char(v, upper)));
    } else {
        assert(v / 16 < v) by (nonlinear_arith)
            requires
                v >= 16,
        ;
        lemma_hex_digits_value(v / 16, upper);
        let rest = hex_digits(v / 16, upper);
        let c = hex_char(v % 16, upper);
        lemma_hex_char_val(v % 16, upper);
        assert(hex_digits(v, upper) == rest.push(c));
        assert(rest.push(c).drop_last() =~= rest);
        assert(hex_value(rest.push(c)) == hex_value(rest) * 16 + hex_val(c));
        assert forall|i: int| 0 <= i < rest.push(c).len() implies is_hex_digit(
            #[trigger] rest.push(c)[i],
        ) by {
            if i < rest.len() {
                assert(rest.push(c)[i] == rest[i]);
            }
        }
    }
}

/// The color rendering holds only hexadecimal digits and reads back to
/// the stored value.
pub proof fn lemma_color_digits_value(c: u32)
    ensures
        all_hex(color_digits(c as nat)),
        hex_value(color_digits(c as nat)) == c,
        color_digits(c as nat).len() >= 1,
{
    if c < 0x10000 {
        reveal_with_fuel(pow16, 5);
        assert(pow16(4) == 0x10000);
        lemma_hex_fixed_value(c as nat, 4, true);
    } else {
        lemma_hex_digits_value(c as nat, true);
    }
}

/// A string of hexadecimal digits with a value below 2^32 parses back
/// to that value.
pub proof fn lemma_hex_parse_digits(s: Seq<char>)
    requires
        s.len() >= 1,
        all_hex(s),
        hex_value(s) <= 0xFFFF_FFFF,
    ensures
        hex_u32_of(s) == Some(hex_value(s) as u32),
{
    assert(is_hex_digit(s[0]));
    assert(s[0] != '+');
    assert(hex_numeral_digits(s) == s);
}

/// `str::split(',')`: the pieces between commas, in order, never empty.
pub open spec fn split_commas_spec(s: Seq<char>) -> Seq<Seq<char>>
    decreases s.len(),
{
    if s.len() == 0 {
        seq![Seq::empty()]
    } else if s[0] == ',' {
        seq![Seq::<char>::empty()] + split_commas_spec(s.drop_first())
    } else {
        let rest = split_commas_spec(s.drop_first());
        seq![seq![s[0]] + rest[0]] + rest.drop_first()
    }
}

/// `Vec::join(",")` over the views of the pieces.
pub open spec fn join_commas_spec(parts: Seq<Seq<char>>) -> Seq<char>
    decreases parts.len(),
{
    if parts.len() == 0 {
        Seq::empty()
    } else if parts.len() == 1 {
        parts[0]
    } else {
        parts[0] + seq![','] + join_commas_spec(parts.drop_first())
    }
}

pub proof fn lemma_split_commas_len(s: Seq<char>)
    ensures
        split_commas_spec(s).len() >= 1,
    decreases s.len(),
{
    if s.len() != 0 {
        lemma_split_commas_len(s.drop_first())
    }
}

/// Splitting undoes joining: `join(split(s)) == s`.
pub proof fn lemma_join_split(s: Seq<char>)
    ensures
        join_commas_spec(split_commas_spec(s)) == s,
    decreases s.len(),
{
    if s.len() == 0 {
        assert(join_commas_spec(split_commas_spec(s)) =~= s);
    } else if s[0] == ',' {
        lemma_join_split(s.drop_first());
        lemma_split_commas_len(s.drop_first());
        let parts = seq![Seq::<char>::empty()] + split_commas_spec(s.drop_first());
        assert(parts.drop_first() =~= split_commas_spec(s.drop_first()));
        assert(join_commas_spec(parts) =~= s);
    } else {
        lemma_join_split(s.drop_first());
        lemma_split_commas_len(s.drop_first());
        let rest = split_commas_spec(s.drop_first());
        let parts = seq![seq![s[0]] + rest[0]] + rest.drop_first();
        if rest.len() == 1 {
            assert(join_commas_spec(rest) == rest[0]);
            assert(parts.len() == 1);
            assert(join_commas_spec(parts) == seq![s[0]] + rest[0]);
            assert(join_commas_spec(parts) =~= s);
        } else {
            assert(parts.drop_first() =~= rest.drop_first());
            assert(join_commas_spec(rest) == rest[0] + seq![','] + join_commas_spec(
                rest.drop_first(),
            ));
            assert(rest[0] + seq![','] + join_commas_spec(rest.drop_first()) == s.drop_first());
            assert(join_commas_spec(parts) == parts[0] + seq![','] + join_commas_spec(
                rest.drop_first(),
            ));
            assert(join_commas_spec(parts) =~= seq![s[0]] + (rest[0] + seq![',']
                + join_commas_spec(rest.drop_first())));
            assert(seq![s[0]] + s.drop_first() =~= s);
            assert(join_commas_spec(parts) == s);
        }
    }
}

/// Views of a vector of owned strings.
pub open spec fn str_views(v: Seq<String>) -> Seq<Seq<char>> {
    v.map_values(|p: String| p@)
}

/// A piece without commas splits into itself alone.
proof fn lemma_split_no_comma(s: Seq<char>)
    requires
        forall|i: int| 0 <= i < s.len() ==> #[trigger] s[i] != ',',
    ensures
        split_commas_spec(s) == seq![s],
    decreases s.len(),
{
    if s.len() == 0 {
        assert(s =~= Seq::<char>::empty());
        assert(split_commas_spec(s) == seq![Seq::<char>::empty()]);
        assert(split_commas_spec(s) == seq![s]);
    } else {
        assert forall|i: int| 0 <= i < s.drop_first().len() implies #[trigger] s.drop_first()[i]
            != ',' by {
            assert(s.drop_first()[i] == s[i + 1]);
        }
        assert(s[0] != ',');
        lemma_split_no_comma(s.drop_first());
        let rest = split_commas_spec(s.drop_first());
        assert(rest[0] == s.drop_first());
        assert(rest.drop_first() =~= Seq::<Seq<char>>::empty());
        assert(seq![s[0]] + rest[0] =~= s);
        assert(split_commas_spec(s) =~= seq![s]);
    }
}

/// Splitting distributes over a comma between two halves.
proof fn lemma_split_append_comma(x: Seq<char>, y: Seq<char>)
    ensures
        split_commas_spec(x + seq![','] + y) == split_commas_spec(x) + split_commas_spec(y),
    decreases x.len(),
{
    let s = x + seq![','] + y;
    if x.len() == 0 {
        assert(s[0] == ',');
        assert(s.drop_first() =~= y);
        assert(split_commas_spec(s) =~= split_commas_spec(x) + split_commas_spec(y));
    } else {
        assert(s[0] == x[0]);
        assert(s.drop_first() =~= x.drop_first() + seq![','] + y);
        lemma_split_append_comma(x.drop_first(), y);
        lemma_split_commas_len(x.drop_first());
        lemma_split_commas_len(y);
        let rx = split_commas_spec(x.drop_first());
        let rest = rx + split_commas_spec(y);
        assert(rest[0] == rx[0]);
        if x[0] == ',' {
            assert(split_commas_spec(x) =~= seq![Seq::<char>::empty()] + rx);
            assert(split_commas_spec(s) =~= split_commas_spec(x) + split_commas_spec(y));
        } else {
            assert(rest.drop_first() =~= rx.drop_first() + split_commas_spec(y));
            assert(split_commas_spec(x) =~= seq![seq![x[0]] + rx[0]] + rx.drop_first());
            assert(split_commas_spec(s) =~= split_commas_spec(x) + split_commas_spec(y));
        }
    }
}

/// Index of the first comma at or after `from`, or the length.
fn find_comma_from(s: &str, from: usize) -> (r: usize)
    requires
        from <= s@.len(),
    ensures
        from <= r <= s@.len(),
        forall|i: int| from <= i < r ==> #[trigger] s@[i] != ',',
        r < s@.len() ==> s@[r as int] == ',',
    decreases s@.len() - from,
{
    if from == s.unicode_len() {
        return from;
    }
    if s.get_char(from) == ',' {
        from
    } else {
        find_comma_from(s, from + 1)
    }
}

/// `str::split(',').collect()`, verified against [`split_commas_spec`].
pub fn split_commas(s: &str) -> (r: Vec<String>)
    ensures
        str_views(r@) == split_commas_spec(s@),
{
    let n = s.unicode_len();
    let mut parts: Vec<String> = Vec::new();
    let mut start: usize = 0;
    proof {
        assert(s@.skip(0) =~= s@);
        assert(str_views(parts@) + split_commas_spec(s@) =~= split_commas_spec(s@));
    }
    loop
        invariant
            start <= n,
            n == s@.len(),
            split_commas_spec(s@) == str_views(parts@) + split_commas_spec(s@.skip(start as int)),
        decreases n - start,
    {
        let j = find_comma_from(s, start);
        let piece = String::from_str(s.substring_char(start, j));
        proof {
            assert forall|i: int| 0 <= i < piece@.len() implies #[trigger] piece@[i] != ',' by {
                assert(piece@[i] == s@[start + i]);
            }
            lemma_split_no_comma(piece@);
        }
        if j == n {
            parts.push(piece);
            proof {
                assert(piece@ =~= s@.skip(start as int));
                assert(str_views(parts@) =~= str_views(parts@.drop_last()) + seq![piece@]);
                assert(split_commas_spec(s@) =~= str_views(parts@));
            }
            return parts;
        }
        parts.push(piece);
        proof {
            assert(s@.skip(start as int) =~= piece@ + seq![','] + s@.skip(j + 1));
            lemma_split_append_comma(piece@, s@.skip(j + 1));
            assert(str_views(parts@) =~= str_views(parts@.drop_last()) + seq![piece@]);
        }
        start = j + 1;
    }
}

/// Appending one piece to a join.
proof fn lemma_join_push(parts: Seq<Seq<char>>, x: Seq<char>)
    ensures
        parts.len() == 0 ==> join_commas_spec(parts.push(x)) == x,
        parts.len() > 0 ==> join_commas_spec(parts.push(x)) == join_commas_spec(parts) + seq![',']
            + x,
    decreases parts.len(),
{
    if parts.len() == 0 {
        assert(join_commas_spec(parts.push(x)) == parts.push(x)[0]);
        assert(parts.push(x)[0] == x);
    } else if parts.len() == 1 {
        assert(parts.push(x).drop_first() =~= seq![x]);
        assert(join_commas_spec(seq![x]) == x);
        assert(join_commas_spec(parts.push(x)) == parts.push(x)[0] + seq![',']
            + join_commas_spec(parts.push(x).drop_first()));
        assert(parts.push(x)[0] == parts[0]);
        assert(join_commas_spec(parts.push(x)) == parts[0] + seq![','] + x);
    } else {
        lemma_join_push(parts.drop_first(), x);
        assert(parts.push(x).drop_first() =~= parts.drop_first().push(x));
        assert(join_commas_spec(parts.push(x)) == parts[0] + seq![','] + join_commas_spec(
            parts.drop_first().push(x),
        ));
        assert(join_commas_spec(parts.push(x)) =~= join_commas_spec(parts) + seq![','] + x);
    }
}

/// `Vec::join(",")`, verified against [`join_commas_spec`].
pub fn join_commas(parts: &Vec<String>) -> (r: String)
    ensures
        r@ == join_commas_spec(str_views(parts@)),
{
    let mut s = String::new();
    let mut i: usize = 0;
    while i < parts.len()
        invariant
            i <= parts@.len(),
            s@ == join_commas_spec(str_views(parts@).take(i as int)),
        decreases parts@.len() - i,
    {
        if i > 0 {
            push_char(&mut s, ',');
        }
        s.append(parts[i].as_str());
        proof {
            let views = str_views(parts@);
            assert(views.take(i + 1) =~= views.take(i as int).push(views[i as int]));
            lemma_join_push(views.take(i as int), views[i as int]);
            assert(views[i as int] == parts@[i as int]@);
            assert(s@ =~= join_commas_spec(views.take(i + 1)));
        }
        i = i + 1;
    }
    proof {
        assert(str_views(parts@).take(parts@.len() as int) =~= str_views(parts@));
    }
    s
}

} // verus!
