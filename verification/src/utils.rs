//! Coin amount formatting and parsing, transaction fees and human-readable
//! difficulty display, all over exact integer arithmetic.
use vstd::prelude::*;
use vstd::string::StrSliceExecFns;
use vstd::string::StringExecFns;

verus! {

/// Number of decimals of the native coin.
pub const COIN_DECIMALS: u8 = 8;

/// Atomic units per whole coin.
pub const COIN_VALUE: u64 = 100_000_000;

/// Fee per started kilobyte of transaction size, in atomic units.
pub const FEE_PER_KB: u64 = 10_000;

/// Fee per newly created address, in atomic units.
pub const FEE_PER_ACCOUNT_CREATION: u64 = 100_000;

/// Fee overhead per transfer output (and per multisig signature), in atomic
/// units.
pub const FEE_PER_TRANSFER: u64 = 5_000;

/// Bytes per kilobyte for fee purposes.
pub const BYTES_PER_KB: usize = 1024;

/// The decimal digit character for a value below ten.
pub open spec fn spec_digit_char(d: int) -> char {
    if d == 0 {
        '0'
    } else if d == 1 {
        '1'
    } else if d == 2 {
        '2'
    } else if d == 3 {
        '3'
    } else if d == 4 {
        '4'
    } else if d == 5 {
        '5'
    } else if d == 6 {
        '6'
    } else if d == 7 {
        '7'
    } else if d == 8 {
        '8'
    } else {
        '9'
    }
}

/// The decimal representation of a natural number, most significant digit
/// first, without leading zeros (zero itself is "0").
pub open spec fn spec_dec(n: nat) -> Seq<char>
    decreases n,
{
    if n < 10 {
        seq![spec_digit_char(n as int)]
    } else {
        spec_dec(n / 10).push(spec_digit_char((n % 10) as int))
    }
}

/// Ten to the power `e`.
pub open spec fn pow10(e: nat) -> nat
    decreases e,
{
    if e == 0 {
        1
    } else {
        10 * pow10((e - 1) as nat)
    }
}

proof fn lemma_pow10_pos(e: nat)
    ensures
        pow10(e) >= 1,
    decreases e,
{
    if e > 0 {
        lemma_pow10_pos((e - 1) as nat);
    }
}

proof fn lemma_pow10_mono(a: nat, b: nat)
    requires
        a <= b,
    ensures
        pow10(a) <= pow10(b),
    decreases b,
{
    if a < b {
        lemma_pow10_mono(a, (b - 1) as nat);
        lemma_pow10_pos((b - 1) as nat);
    }
}

/// A number below `pow10(k)` has at most `k` decimal digits.
proof fn lemma_dec_len(n: nat, k: nat)
    requires
        n < pow10(k),
        k >= 1,
    ensures
        spec_dec(n).len() <= k,
    decreases k,
{
    if n >= 10 {
        assert(pow10(1) == 10) by {
            reveal_with_fuel(pow10, 2);
        }
        if k == 1 {
            assert(false);
        }
        assert(n / 10 < pow10((k - 1) as nat)) by (nonlinear_arith)
            requires
                n < pow10(k),
                pow10(k) == 10 * pow10((k - 1) as nat),
        ;
        lemma_dec_len(n / 10, (k - 1) as nat);
    }
}

/// A run of `n` zero characters, used to left-pad fractional parts.
pub open spec fn zeros(n: nat) -> Seq<char> {
    Seq::new(n, |i: int| '0')
}

/// A coin value formatted with the given decimals count: the whole part,
/// a dot, and exactly `d` fractional digits, zero-padded on the left.
/// With zero decimals only the whole part appears.
pub open spec fn spec_format_coin(v: nat, d: nat) -> Seq<char> {
    if d == 0 {
        spec_dec(v)
    } else {
        let frac = v % pow10(d);
        spec_dec(v / pow10(d)) + seq!['.'] + zeros((d - spec_dec(frac).len()) as nat)
            + spec_dec(frac)
    }
}

fn digit_str(d: u64) -> (s: &'static str)
    requires
        d < 10,
    ensures
        s@ == seq![spec_digit_char(d as int)],
{
    proof {
        reveal_strlit("0");
        reveal_strlit("1");
        reveal_strlit("2");
        reveal_strlit("3");
        reveal_strlit("4");
        reveal_strlit("5");
        reveal_strlit("6");
        reveal_strlit("7");
        reveal_strlit("8");
        reveal_strlit("9");
    }
    let s = if d == 0 {
        "0"
    } else if d == 1 {
        "1"
    } else if d == 2 {
        "2"
    } else if d == 3 {
        "3"
    } else if d == 4 {
        "4"
    } else if d == 5 {
        "5"
    } else if d == 6 {
        "6"
    } else if d == 7 {
        "7"
    } else if d == 8 {
        "8"
    } else {
        "9"
    };
    proof {
        assert(s@ =~= seq![spec_digit_char(d as int)]);
    }
    s
}

/// The decimal string of a `u64`.
pub fn u64_to_dec(n: u64) -> (s: String)
    ensures
        s@ == spec_dec(n as nat),
    decreases n,
{
    if n < 10 {
        digit_str(n).to_owned()
    } else {
        let mut s = u64_to_dec(n / 10);
        s.append(digit_str(n % 10));
        proof {
            assert(s@ =~= spec_dec((n / 10) as nat).push(spec_digit_char((n % 10) as int)));
        }
        s
    }
}

/// Ten to the power `e` as a machine integer; `e <= 19` keeps it in `u64`.
pub fn pow10_u64(e: u8) -> (r: u64)
    requires
        e <= 19,
    ensures
        r == pow10(e as nat),
{
    let mut acc: u64 = 1;
    let mut i: u8 = 0;
    while i < e
        invariant
            i <= e,
            acc == pow10(i as nat),
        decreases e - i,
    {
        proof {
            lemma_pow10_mono((i + 1) as nat, 19);
            assert(pow10(19) == 10_000_000_000_000_000_000) by {
                reveal_with_fuel(pow10, 21);
            }
        }
        acc = acc * 10;
        i += 1;
    }
    acc
}

/// Formats a coin value using the requested decimals count.
pub fn format_coin(value: u64, decimals: u8) -> (s: String)
    requires
        decimals <= 19,
    ensures
        s@ == spec_format_coin(value as nat, decimals as nat),
{
    if decimals == 0 {
        return u64_to_dec(value);
    }
    let p = pow10_u64(decimals);
    proof {
        lemma_pow10_pos(decimals as nat);
    }
    let int_part = value / p;
    let frac = value % p;
    let mut s = u64_to_dec(int_part);
    s.append(".");
    proof {
        reveal_strlit(".");
    }
    let ghost s_base = s@;
    let fs = u64_to_dec(frac);
    let fs_len = fs.as_str().unicode_len();
    proof {
        lemma_dec_len(frac as nat, decimals as nat);
    }
    let pad_n = decimals as usize - fs_len;
    let mut j: usize = 0;
    proof {
        assert(s@ =~= s_base + zeros(0));
    }
    while j < pad_n
        invariant
            j <= pad_n,
            s@ == s_base + zeros(j as nat),
        decreases pad_n - j,
    {
        s.append("0");
        proof {
            reveal_strlit("0");
            assert(s@ =~= s_base + zeros((j + 1) as nat));
        }
        j += 1;
    }
    s.append(fs.as_str());
    proof {
        assert(s_base =~= spec_dec(int_part as nat) + seq!['.']);
        assert(s@ =~= spec_format_coin(value as nat, decimals as nat));
    }
    s
}

/// Formats a value using the native coin's decimals.
pub fn format_dapa(value: u64) -> (s: String)
    ensures
        s@ == spec_format_coin(value as nat, COIN_DECIMALS as nat),
{
    format_coin(value, COIN_DECIMALS)
}

/// Kilobytes consumed by a transaction of the given size: any started
/// kilobyte counts whole.
pub open spec fn spec_size_in_kb(tx_size: nat) -> nat {
    tx_size / 1024 + if tx_size % 1024 != 0 {
        1nat
    } else {
        0nat
    }
}

/// The fee of a transaction: its size in started kilobytes, each transfer
/// output, each newly created address and each multisig signature all add
/// their share.
pub open spec fn spec_tx_fee(tx_size: nat, output_count: nat, new_addresses: nat, multisig: nat) -> int {
    spec_size_in_kb(tx_size) * FEE_PER_KB + output_count * FEE_PER_TRANSFER
        + new_addresses * FEE_PER_ACCOUNT_CREATION + multisig * FEE_PER_TRANSFER
}

/// Returns the fee for a transaction from its size in bytes, its output
/// count, the number of new addresses it pays to, and its multisig
/// signature count.
pub fn calculate_tx_fee(tx_size: usize, output_count: usize, new_addresses: usize, multisig: usize) -> (r: u64)
    requires
        spec_tx_fee(tx_size as nat, output_count as nat, new_addresses as nat, multisig as nat)
            <= u64::MAX,
    ensures
        r == spec_tx_fee(tx_size as nat, output_count as nat, new_addresses as nat, multisig as nat),
{
    let mut size_in_kb = tx_size as u64 / (BYTES_PER_KB as u64);
    if tx_size % BYTES_PER_KB != 0 {
        size_in_kb = size_in_kb + 1;
    }
    size_in_kb * FEE_PER_KB + (output_count as u64) * FEE_PER_TRANSFER
        + (new_addresses as u64) * FEE_PER_ACCOUNT_CREATION + (multisig as u64) * FEE_PER_TRANSFER
}

/// Characters trimmed around a coin amount before parsing.
pub open spec fn is_space(c: char) -> bool {
    c == ' ' || c == '\t' || c == '\n' || c == '\r' || c == '\u{b}' || c == '\u{c}'
}

/// The sequence with its leading whitespace dropped.
pub open spec fn trim_front(s: Seq<char>) -> Seq<char>
    decreases s.len(),
{
    if s.len() > 0 && is_space(s[0]) {
        trim_front(s.drop_first())
    } else {
        s
    }
}

/// The sequence with its trailing whitespace dropped.
pub open spec fn trim_back(s: Seq<char>) -> Seq<char>
    decreases s.len(),
{
    if s.len() > 0 && is_space(s.last()) {
        trim_back(s.drop_last())
    } else {
        s
    }
}

/// The sequence with whitespace dropped on both ends.
pub open spec fn spec_trim(s: Seq<char>) -> Seq<char> {
    trim_back(trim_front(s))
}

/// The value of a decimal digit character, `-1` for any other character.
pub open spec fn digit_of(c: char) -> int {
    if c == '0' {
        0
    } else if c == '1' {
        1
    } else if c == '2' {
        2
    } else if c == '3' {
        3
    } else if c == '4' {
        4
    } else if c == '5' {
        5
    } else if c == '6' {
        6
    } else if c == '7' {
        7
    } else if c == '8' {
        8
    } else if c == '9' {
        9
    } else {
        -1
    }
}

pub open spec fn is_digit(c: char) -> bool {
    digit_of(c) >= 0
}

pub open spec fn all_digits(s: Seq<char>) -> bool {
    forall|i: int| 0 <= i < s.len() ==> is_digit(#[trigger] s[i])
}

/// The number denoted by a digit sequence, most significant digit first.
pub open spec fn digits_val(s: Seq<char>) -> int
    decreases s.len(),
{
    if s.len() == 0 {
        0
    } else {
        digits_val(s.drop_last()) * 10 + digit_of(s.last())
    }
}

/// The parse of an unsigned digit run: at least one digit, all characters
/// digits, and the value fitting in `u64`.
pub open spec fn spec_parse_u64_tail(t: Seq<char>) -> Option<u64> {
    if t.len() == 0 || !all_digits(t) {
        None
    } else if digits_val(t) > u64::MAX {
        None
    } else {
        Some(digits_val(t) as u64)
    }
}

/// An unsigned decimal number as `str::parse::<u64>` reads it: an optional
/// leading plus sign, then an unsigned digit run.
pub open spec fn spec_parse_u64(s: Seq<char>) -> Option<u64> {
    let t = if s.len() > 0 && s[0] == '+' {
        s.drop_first()
    } else {
        s
    };
    spec_parse_u64_tail(t)
}

/// The index of the first occurrence of `c`, or the length when absent.
pub open spec fn first_index_of(s: Seq<char>, c: char) -> int
    decreases s.len(),
{
    if s.len() == 0 {
        0
    } else if s[0] == c {
        0
    } else {
        1 + first_index_of(s.drop_first(), c)
    }
}

/// The first `d` characters of `s` extended with zeros: how a fractional
/// part is cut or right-padded to exactly `d` digits.
pub open spec fn take_pad(s: Seq<char>, d: nat) -> Seq<char> {
    if s.len() >= d {
        s.subrange(0, d as int)
    } else {
        s + zeros((d - s.len()) as nat)
    }
}

/// The whole and fractional parts combined into atomic units, `None` on
/// overflow.
pub open spec fn spec_combine(v: u64, f: u64, d: nat) -> Option<u64> {
    if v * pow10(d) + f > u64::MAX {
        None
    } else {
        Some((v * pow10(d) + f) as u64)
    }
}

/// A coin amount string converted to atomic units with `d` decimals. The
/// input is trimmed; the part before the first dot is the whole-coin count;
/// the part between the first and second dots supplies the fractional
/// digits, cut or zero-padded to exactly `d`; with `d` zero no dot is
/// allowed. `None` on any malformed part or on overflow.
pub open spec fn spec_from_coin(s: Seq<char>, d: nat) -> Option<u64> {
    let t = spec_trim(s);
    let dot = first_index_of(t, '.');
    if dot == t.len() {
        match spec_parse_u64(t) {
            None => None,
            Some(v) => if d == 0 {
                Some(v)
            } else {
                spec_combine(v, 0, d)
            },
        }
    } else if d == 0 {
        None
    } else {
        let intp = t.subrange(0, dot);
        let rest = t.subrange(dot + 1, t.len() as int);
        let seg = rest.subrange(0, first_index_of(rest, '.'));
        match spec_parse_u64(intp) {
            None => None,
            Some(v) => match spec_parse_u64(take_pad(seg, d)) {
                None => None,
                Some(f) => spec_combine(v, f, d),
            },
        }
    }
}

proof fn lemma_trim_front_range(s: Seq<char>, k: int)
    requires
        0 <= k <= s.len(),
        forall|j: int| 0 <= j < k ==> is_space(#[trigger] s[j]),
        k == s.len() || !is_space(s[k]),
    ensures
        trim_front(s) == s.subrange(k, s.len() as int),
    decreases k,
{
    if k == 0 {
        assert(trim_front(s) =~= s.subrange(0, s.len() as int));
    } else {
        assert(is_space(s[0]));
        let rest = s.drop_first();
        assert(forall|j: int| 0 <= j < k - 1 ==> is_space(#[trigger] rest[j]));
        lemma_trim_front_range(rest, k - 1);
        assert(rest.subrange(k - 1, rest.len() as int) =~= s.subrange(k, s.len() as int));
    }
}

proof fn lemma_trim_back_range(s: Seq<char>, m: int)
    requires
        0 <= m <= s.len(),
        forall|j: int| m <= j < s.len() ==> is_space(#[trigger] s[j]),
        m == 0 || !is_space(s[m - 1]),
    ensures
        trim_back(s) == s.subrange(0, m),
    decreases s.len(),
{
    if m == s.len() {
        if s.len() > 0 {
            assert(!is_space(s.last()));
        }
        assert(trim_back(s) =~= s.subrange(0, m));
    } else {
        assert(is_space(s.last()));
        let rest = s.drop_last();
        lemma_trim_back_range(rest, m);
        assert(rest.subrange(0, m) =~= s.subrange(0, m));
    }
}

proof fn lemma_first_index_at(s: Seq<char>, c: char, i: int)
    requires
        0 <= i <= s.len(),
        forall|j: int| 0 <= j < i ==> s[j] != c,
        i == s.len() || s[i] == c,
    ensures
        first_index_of(s, c) == i,
    decreases s.len(),
{
    if s.len() == 0 {
    } else if s[0] == c {
        assert(i == 0);
    } else {
        assert(i >= 1);
        let rest = s.drop_first();
        assert(forall|j: int| 0 <= j < i - 1 ==> #[trigger] rest[j] != c);
        lemma_first_index_at(rest, c, i - 1);
    }
}

proof fn lemma_digits_val_nonneg(s: Seq<char>)
    requires
        all_digits(s),
    ensures
        digits_val(s) >= 0,
    decreases s.len(),
{
    if s.len() > 0 {
        let rest = s.drop_last();
        assert(forall|j: int| 0 <= j < rest.len() ==> is_digit(#[trigger] rest[j]));
        lemma_digits_val_nonneg(rest);
        assert(is_digit(s.last())) by {
            assert(s[s.len() - 1] == s.last());
        }
    }
}

/// Appending digits never shrinks the denoted value.
proof fn lemma_digits_val_mono(s: Seq<char>, i: int)
    requires
        all_digits(s),
        0 <= i <= s.len(),
    ensures
        digits_val(s) >= digits_val(s.subrange(0, i)),
    decreases s.len() - i,
{
    if i == s.len() {
        assert(s.subrange(0, i) =~= s);
    } else {
        let a = s.subrange(0, i);
        let b = s.subrange(0, i + 1);
        assert(b.drop_last() =~= a);
        assert(forall|j: int| 0 <= j < a.len() ==> is_digit(#[trigger] a[j]));
        lemma_digits_val_nonneg(a);
        assert(is_digit(b.last())) by {
            assert(b.last() == s[i]);
        }
        assert(digits_val(b) >= digits_val(a));
        lemma_digits_val_mono(s, i + 1);
    }
}

fn is_space_c(c: char) -> (r: bool)
    ensures
        r == is_space(c),
{
    c == ' ' || c == '\t' || c == '\n' || c == '\r' || c == '\u{b}' || c == '\u{c}'
}

fn digit_val_c(c: char) -> (r: Option<u64>)
    ensures
        r is Some <==> is_digit(c),
        r matches Some(d) ==> d == digit_of(c),
{
    if c == '0' {
        Some(0)
    } else if c == '1' {
        Some(1)
    } else if c == '2' {
        Some(2)
    } else if c == '3' {
        Some(3)
    } else if c == '4' {
        Some(4)
    } else if c == '5' {
        Some(5)
    } else if c == '6' {
        Some(6)
    } else if c == '7' {
        Some(7)
    } else if c == '8' {
        Some(8)
    } else if c == '9' {
        Some(9)
    } else {
        None
    }
}

fn str_chars(s: &str) -> (v: Vec<char>)
    ensures
        v@ == s@,
{
    let n = s.unicode_len();
    let mut v: Vec<char> = Vec::new();
    let mut i: usize = 0;
    proof {
        assert(v@ =~= s@.subrange(0, 0));
    }
    while i < n
        invariant
            i <= n,
            n == s@.len(),
            v@ == s@.subrange(0, i as int),
        decreases n - i,
    {
        let c = s.get_char(i);
        v.push(c);
        proof {
            assert(s@.subrange(0, i + 1) =~= s@.subrange(0, i as int).push(s@[i as int]));
        }
        i += 1;
    }
    proof {
        assert(s@.subrange(0, n as int) =~= s@);
    }
    v
}

/// Parses the characters `[from, to)` as `str::parse::<u64>` would.
fn parse_u64_range(v: &Vec<char>, from: usize, to: usize) -> (r: Option<u64>)
    requires
        from <= to <= v@.len(),
    ensures
        r == spec_parse_u64(v@.subrange(from as int, to as int)),
{
    let ghost s = v@.subrange(from as int, to as int);
    let mut i = from;
    if to > from && v[from] == '+' {
        i = from + 1;
    }
    let ghost t = if s.len() > 0 && s[0] == '+' {
        s.drop_first()
    } else {
        s
    };
    proof {
        assert(t =~= v@.subrange(i as int, to as int));
    }
    if i == to {
        return None;
    }
    let mut acc: u64 = 0;
    let mut j = i;
    proof {
        assert(v@.subrange(i as int, i as int) =~= Seq::<char>::empty());
    }
    while j < to
        invariant
            i <= j <= to,
            forall|k: int| i <= k < j ==> is_digit(#[trigger] v@[k]),
            acc == digits_val(v@.subrange(i as int, j as int)),
        decreases to - j,
    {
        let ghost pref = v@.subrange(i as int, j as int);
        let ghost ext = v@.subrange(i as int, j + 1);
        proof {
            assert(ext.drop_last() =~= pref);
            assert(ext.last() == v@[j as int]);
        }
        let d = match digit_val_c(v[j]) {
            Some(d) => d,
            None => {
                proof {
                    assert(!is_digit(t[j - i]));
                }
                return None;
            },
        };
        proof {
            assert(t.subrange(0, j - i) =~= pref);
            assert(t[j - i] == v@[j as int]);
        }
        let m = match acc.checked_mul(10) {
            Some(m) => m,
            None => {
                proof {
                    lemma_digits_val_nonneg_prefix(t, j - i);
                    lemma_overflow_means_none(t, j - i, acc * 10 + digit_of(v@[j as int]));
                }
                return None;
            },
        };
        let a = match m.checked_add(d) {
            Some(a) => a,
            None => {
                proof {
                    lemma_overflow_means_none(t, j - i, acc * 10 + digit_of(v@[j as int]));
                }
                return None;
            },
        };
        acc = a;
        j += 1;
    }
    proof {
        assert(v@.subrange(i as int, to as int) =~= t);
        assert(forall|k: int| 0 <= k < t.len() ==> is_digit(#[trigger] t[k]));
    }
    Some(acc)
}

/// A digit prefix denotes a nonnegative value.
proof fn lemma_digits_val_nonneg_prefix(t: Seq<char>, i: int)
    requires
        0 <= i <= t.len(),
        forall|k: int| 0 <= k < i ==> is_digit(#[trigger] t[k]),
    ensures
        digits_val(t.subrange(0, i)) >= 0,
{
    let pref = t.subrange(0, i);
    assert(forall|k: int| 0 <= k < pref.len() ==> is_digit(#[trigger] pref[k]));
    lemma_digits_val_nonneg(pref);
}

/// When a digit prefix already exceeds `u64`, the whole parse is `None`.
proof fn lemma_overflow_means_none(t: Seq<char>, i: int, pref_val: int)
    requires
        0 <= i < t.len(),
        is_digit(t[i]),
        forall|k: int| 0 <= k < i ==> is_digit(#[trigger] t[k]),
        pref_val == digits_val(t.subrange(0, i)) * 10 + digit_of(t[i]),
        pref_val > u64::MAX,
    ensures
        spec_parse_u64_tail(t) == None::<u64>,
{
    if all_digits(t) {
        assert(t.subrange(0, i + 1).drop_last() =~= t.subrange(0, i));
        assert(t.subrange(0, i + 1).last() == t[i]);
        assert(digits_val(t.subrange(0, i + 1)) == pref_val);
        lemma_digits_val_mono(t, i + 1);
    }
}


/// Converts a coin amount from string to atomic units with the provided
/// decimals count.
#[verifier::rlimit(60)]
pub fn from_coin(value: &str, coin_decimals: u8) -> (r: Option<u64>)
    requires
        coin_decimals <= 19,
    ensures
        r == spec_from_coin(value@, coin_decimals as nat),
{
    let v = str_chars(value);
    let n = v.len();
    let mut start: usize = 0;
    while start < n && is_space_c(v[start])
        invariant
            start <= n,
            n == v@.len(),
            forall|k: int| 0 <= k < start ==> is_space(#[trigger] v@[k]),
        decreases n - start,
    {
        start += 1;
    }
    let mut end: usize = n;
    while end > start && is_space_c(v[end - 1])
        invariant
            start <= end <= n,
            forall|k: int| end <= k < n ==> is_space(#[trigger] v@[k]),
        decreases end,
    {
        end -= 1;
    }
    let ghost t = spec_trim(value@);
    proof {
        lemma_trim_front_range(value@, start as int);
        let tf = value@.subrange(start as int, n as int);
        lemma_trim_back_range(tf, end - start);
        assert(t =~= v@.subrange(start as int, end as int));
    }
    let mut dot = start;
    while dot < end && !(v[dot] == '.')
        invariant
            start <= dot <= end,
            forall|k: int| start <= k < dot ==> #[trigger] v@[k] != '.',
        decreases end - dot,
    {
        dot += 1;
    }
    proof {
        assert(forall|k: int| 0 <= k < dot - start ==> #[trigger] t[k] != '.');
        lemma_first_index_at(t, '.', dot - start);
    }
    if dot == end {
        match parse_u64_range(&v, start, end) {
            None => None,
            Some(whole) => {
                if coin_decimals == 0 {
                    Some(whole)
                } else {
                    let p = pow10_u64(coin_decimals);
                    whole.checked_mul(p)
                }
            },
        }
    } else {
        if coin_decimals == 0 {
            return None;
        }
        let mut seg_to = dot + 1;
        while seg_to < end && !(v[seg_to] == '.')
            invariant
                dot + 1 <= seg_to <= end,
            forall|k: int| dot + 1 <= k < seg_to ==> #[trigger] v@[k] != '.',
            decreases end - seg_to,
        {
            seg_to += 1;
        }
        let ghost rest = t.subrange(dot - start + 1, t.len() as int);
        let ghost seg = rest.subrange(0, first_index_of(rest, '.'));
        proof {
            assert(rest =~= v@.subrange(dot + 1, end as int));
            assert(forall|k: int| 0 <= k < seg_to - dot - 1 ==> #[trigger] rest[k] != '.');
            lemma_first_index_at(rest, '.', seg_to - dot - 1);
            assert(seg =~= v@.subrange(dot + 1, seg_to as int));
            assert(t.subrange(0, dot - start) =~= v@.subrange(start as int, dot as int));
        }
        match parse_u64_range(&v, start, dot) {
            None => None,
            Some(whole) => {
                let d_usize = coin_decimals as usize;
                let mut pv: Vec<char> = Vec::new();
                let mut k = dot + 1;
                proof {
                    assert(pv@ =~= seg.subrange(0, 0));
                }
                while k < seg_to && pv.len() < d_usize
                    invariant
                        dot + 1 <= k <= seg_to,
                        pv@.len() == k - dot - 1,
                        pv@.len() <= d_usize,
                        pv@ == seg.subrange(0, k - dot - 1),
                    decreases seg_to - k,
                {
                    pv.push(v[k]);
                    proof {
                        assert(seg.subrange(0, k - dot) =~= seg.subrange(
                            0,
                            k - dot - 1,
                        ).push(seg[k - dot - 1]));
                    }
                    k += 1;
                }
                let ghost copied = pv@.len() as int;
                while pv.len() < d_usize
                    invariant
                        copied <= pv@.len() <= d_usize,
                        pv@ == seg.subrange(0, copied) + zeros((pv@.len() - copied) as nat),
                    decreases d_usize - pv@.len(),
                {
                    pv.push('0');
                    proof {
                        assert(pv@ =~= seg.subrange(0, copied) + zeros(
                            (pv@.len() - copied) as nat,
                        ));
                    }
                }
                proof {
                    assert(pv@ =~= take_pad(seg, coin_decimals as nat));
                    assert(pv@.subrange(0, pv@.len() as int) =~= pv@);
                }
                match parse_u64_range(&pv, 0, pv.len()) {
                    None => None,
                    Some(frac) => {
                        let p = pow10_u64(coin_decimals);
                        match whole.checked_mul(p) {
                            None => None,
                            Some(x) => x.checked_add(frac),
                        }
                    },
                }
            },
        }
    }
}


/// Converts a coin amount from string to atomic units with the native
/// coin's decimals.
pub fn from_dapa(value: &str) -> (r: Option<u64>)
    ensures
        r == spec_from_coin(value@, COIN_DECIMALS as nat),
{
    from_coin(value, COIN_DECIMALS)
}

/// Whether `s` begins with `p`.
pub open spec fn spec_has_prefix(s: Seq<char>, p: Seq<char>) -> bool {
    p.len() <= s.len() && s.subrange(0, p.len() as int) == p
}

/// A daemon address rewritten to a websocket address: `https` becomes
/// `wss`, `http` becomes `ws`; a bare address gets `ws://` when it parses
/// as a socket address (the caller tells) and `wss://` otherwise; a single
/// trailing slash is dropped.
pub open spec fn spec_sanitize_daemon_address(t: Seq<char>, is_socket_addr: bool) -> Seq<char> {
    let with_proto = spec_sanitize_with_proto(t, is_socket_addr);
    if with_proto.len() > 0 && with_proto.last() == '/' {
        with_proto.drop_last()
    } else {
        with_proto
    }
}

/// Checks whether `s` begins with `p`, character by character.
fn str_has_prefix(s: &str, p: &str) -> (r: bool)
    ensures
        r == spec_has_prefix(s@, p@),
{
    let pn = p.unicode_len();
    let sn = s.unicode_len();
    if pn > sn {
        return false;
    }
    let mut i: usize = 0;
    while i < pn
        invariant
            i <= pn,
            pn == p@.len(),
            sn == s@.len(),
            pn <= sn,
            forall|k: int| 0 <= k < i ==> s@[k] == p@[k],
        decreases pn - i,
    {
        if !(s.get_char(i) == p.get_char(i)) {
            assert(s@.subrange(0, pn as int) != p@) by {
                assert(s@.subrange(0, pn as int)[i as int] != p@[i as int]);
            }
            return false;
        }
        i += 1;
    }
    proof {
        assert(s@.subrange(0, pn as int) =~= p@);
    }
    true
}

/// Rewrites an already-lowercased daemon address into a valid websocket
/// address. The caller reports whether the bare address parses as a socket
/// address, which decides between `ws://` and `wss://` for a plain host.
pub fn sanitize_daemon_address_core(target: &str, is_socket_addr: bool) -> (r: String)
    ensures
        r@ == spec_sanitize_daemon_address(target@, is_socket_addr),
{
    let n = target.unicode_len();
    let prefix: &str;
    let skip: usize;
    if str_has_prefix(target, "https://") {
        prefix = "wss://";
        skip = 8;
        proof {
            reveal_strlit("https://");
        }
    } else if str_has_prefix(target, "http://") {
        prefix = "ws://";
        skip = 7;
        proof {
            reveal_strlit("http://");
        }
    } else if str_has_prefix(target, "ws://") {
        prefix = "";
        skip = 0;
    } else if str_has_prefix(target, "wss://") {
        prefix = "";
        skip = 0;
    } else if is_socket_addr {
        prefix = "ws://";
        skip = 0;
    } else {
        prefix = "wss://";
        skip = 0;
    }
    let mut out = prefix.to_owned();
    let body = target.substring_char(skip, n);
    out.append(body);
    let ghost with_proto = spec_sanitize_with_proto(target@, is_socket_addr);
    proof {
        reveal_strlit("");
        assert(target@.subrange(0, n as int) =~= target@);
        assert(out@ =~= with_proto);
    }
    let m = out.as_str().unicode_len();
    if m > 0 && out.as_str().get_char(m - 1) == '/' {
        let trimmed = out.as_str().substring_char(0, m - 1);
        let r = trimmed.to_owned();
        proof {
            assert(with_proto.last() == '/');
            assert(r@ =~= with_proto.drop_last());
        }
        r
    } else {
        out
    }
}

/// The address after protocol rewriting, before the trailing slash is
/// considered.
pub open spec fn spec_sanitize_with_proto(t: Seq<char>, is_socket_addr: bool) -> Seq<char> {
    if spec_has_prefix(t, "https://"@) {
        "wss://"@ + t.subrange(8, t.len() as int)
    } else if spec_has_prefix(t, "http://"@) {
        "ws://"@ + t.subrange(7, t.len() as int)
    } else if spec_has_prefix(t, "ws://"@) || spec_has_prefix(t, "wss://"@) {
        t
    } else if is_socket_addr {
        "ws://"@ + t
    } else {
        "wss://"@ + t
    }
}

/// Chain difficulty, measured in hashes per second.
#[derive(Clone, Copy, Debug, PartialEq, Eq, Structural)]
pub struct Difficulty(pub u64);

impl Difficulty {
    pub fn zero() -> (r: Difficulty)
        ensures
            r.0 == 0,
    {
        Difficulty(0)
    }

    pub fn from_u64(v: u64) -> (r: Difficulty)
        ensures
            r.0 == v,
    {
        Difficulty(v)
    }
}

impl From<u64> for Difficulty {
    fn from(v: u64) -> (r: Difficulty) {
        Difficulty(v)
    }
}

impl vstd::std_specs::convert::FromSpecImpl<u64> for Difficulty {
    open spec fn obeys_from_spec() -> bool {
        true
    }

    open spec fn from_spec(v: u64) -> Difficulty {
        Difficulty(v)
    }
}

/// One thousand to the power `k`: the scale of the `k`-th difficulty unit.
pub open spec fn pow1000(k: nat) -> nat
    decreases k,
{
    if k == 0 {
        1
    } else {
        1000 * pow1000((k - 1) as nat)
    }
}

proof fn lemma_pow1000_pos(k: nat)
    ensures
        pow1000(k) >= 1,
    decreases k,
{
    if k > 0 {
        lemma_pow1000_pos((k - 1) as nat);
    }
}

/// How many times a value is divided by a thousand before falling below a
/// thousand: the index of its display unit.
pub open spec fn spec_steps(n: nat) -> nat
    decreases n,
{
    if n < 1000 {
        0
    } else {
        1 + spec_steps(n / 1000)
    }
}

/// The unit suffix of the `k`-th thousand-fold scale.
pub open spec fn spec_unit_suffix(k: nat) -> Seq<char> {
    if k == 0 {
        Seq::empty()
    } else if k == 1 {
        seq!['K']
    } else if k == 2 {
        seq!['M']
    } else if k == 3 {
        seq!['G']
    } else if k == 4 {
        seq!['T']
    } else if k == 5 {
        seq!['P']
    } else {
        seq!['E']
    }
}

/// A difficulty in human-readable form: the value scaled below a thousand,
/// a two-digit fraction from the last remainder when it is not zero, and
/// the unit suffix.
pub open spec fn spec_format_difficulty(n: nat) -> Seq<char> {
    let steps = spec_steps(n);
    let scaled = n / pow1000(steps);
    let left = if steps == 0 {
        0nat
    } else {
        (n / pow1000((steps - 1) as nat)) % 1000
    };
    spec_dec(scaled) + (if left == 0 {
        Seq::<char>::empty()
    } else {
        seq!['.'] + spec_dec(left / 10)
    }) + spec_unit_suffix(steps)
}

/// Formats a difficulty in a human-readable form.
pub fn format_difficulty(difficulty: Difficulty) -> (s: String)
    ensures
        s@ == spec_format_difficulty(difficulty.0 as nat),
{
    let ghost n = difficulty.0 as nat;
    let mut cur: u64 = difficulty.0;
    let mut left: u64 = 0;
    let mut count: u8 = 0;
    proof {
        assert(pow1000(0) == 1);
        vstd::arithmetic::div_mod::lemma_div_basics(n as int);
    }
    while cur >= 1000
        invariant
            count <= 6,
            cur == n / pow1000(count as nat),
            spec_steps(n) == count + spec_steps(cur as nat),
            count > 0 ==> left == (n / pow1000((count - 1) as nat)) % 1000,
            count == 0 ==> left == 0 && cur == n,
        decreases cur,
    {
        proof {
            lemma_pow1000_pos(count as nat);
            vstd::arithmetic::div_mod::lemma_div_denominator(
                n as int,
                pow1000(count as nat) as int,
                1000,
            );
            assert(pow1000((count + 1) as nat) == pow1000(count as nat) * 1000);
            if count == 6 {
                assert(pow1000(7) == 1_000_000_000_000_000_000_000) by {
                    reveal_with_fuel(pow1000, 8);
                }
                assert(n >= pow1000(6nat) * 1000) by (nonlinear_arith)
                    requires
                        cur == n / pow1000(6nat),
                        cur >= 1000,
                        pow1000(6nat) >= 1,
                ;
                assert(false);
            }
        }
        left = cur % 1000;
        cur = cur / 1000;
        count = count + 1;
    }
    let mut s = u64_to_dec(cur);
    if left > 0 {
        s.append(".");
        let frac = u64_to_dec(left / 10);
        s.append(frac.as_str());
        proof {
            reveal_strlit(".");
        }
    }
    let suffix: &'static str = if count == 0 {
        ""
    } else if count == 1 {
        "K"
    } else if count == 2 {
        "M"
    } else if count == 3 {
        "G"
    } else if count == 4 {
        "T"
    } else if count == 5 {
        "P"
    } else {
        "E"
    };
    proof {
        reveal_strlit("");
        reveal_strlit("K");
        reveal_strlit("M");
        reveal_strlit("G");
        reveal_strlit("T");
        reveal_strlit("P");
        reveal_strlit("E");
        assert(suffix@ =~= spec_unit_suffix(count as nat));
    }
    s.append(suffix);
    proof {
        assert(s@ =~= spec_format_difficulty(n));
    }
    s
}

} // verus!
