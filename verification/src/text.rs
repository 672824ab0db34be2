//! Character-level text operations used by the wire protocol: separator
//! splitting, token trimming, decimal and radix-36 numeric parsing, and
//! decimal formatting. Each operation is specified over `Seq<char>`.
use vstd::prelude::*;

verus! {

/// The whitespace characters stripped from handshake tokens.
pub open spec fn is_space_char(c: char) -> bool {
    c == ' ' || c == '\t' || c == '\r' || c == '\n'
}

pub open spec fn sep_free(s: Seq<char>, sep: char) -> bool {
    forall|i: int| 0 <= i < s.len() ==> s[i] != sep
}

/// Index of the first occurrence of `sep` in `s`, or `s.len()` if absent.
pub open spec fn first_sep(s: Seq<char>, sep: char) -> int
    decreases s.len(),
{
    if s.len() == 0 {
        0
    } else if s[0] == sep {
        0
    } else {
        1 + first_sep(s.subrange(1, s.len() as int), sep)
    }
}

proof fn lemma_first_sep_bounds(s: Seq<char>, sep: char)
    ensures
        0 <= first_sep(s, sep) <= s.len(),
    decreases s.len(),
{
    if s.len() != 0 && s[0] != sep {
        lemma_first_sep_bounds(s.subrange(1, s.len() as int), sep);
    }
}

/// `first_sep` returns exactly the position of the first separator.
proof fn lemma_first_sep_at(s: Seq<char>, sep: char, i: int)
    requires
        0 <= i <= s.len(),
        sep_free(s.subrange(0, i), sep),
        i == s.len() || s[i] == sep,
    ensures
        first_sep(s, sep) == i,
    decreases i,
{
    if i == 0 {
        if s.len() != 0 {
            assert(s[0] == sep);
        }
    } else {
        assert(s.subrange(0, i)[0] == s[0]);
        assert(s[0] != sep);
        let t = s.subrange(1, s.len() as int);
        assert(forall|k: int|
            0 <= k < i - 1 ==> #[trigger] t.subrange(0, i - 1)[k] == s.subrange(0, i)[k + 1]);
        assert(sep_free(t.subrange(0, i - 1), sep));
        if i < s.len() {
            assert(t[i - 1] == s[i]);
        }
        lemma_first_sep_at(t, sep, i - 1);
    }
}

/// The fields of `s`, split at every occurrence of `sep`.
/// A string with `k` separators has exactly `k + 1` fields, in order.
pub open spec fn split_at_seps(s: Seq<char>, sep: char) -> Seq<Seq<char>>
    decreases s.len(),
{
    let i = first_sep(s, sep);
    if 0 <= i < s.len() {
        seq![s.subrange(0, i)] + split_at_seps(s.subrange(i + 1, s.len() as int), sep)
    } else {
        seq![s]
    }
}

proof fn lemma_split_no_sep(s: Seq<char>, sep: char)
    requires
        sep_free(s, sep),
    ensures
        split_at_seps(s, sep) == seq![s],
{
    assert(s.subrange(0, s.len() as int) =~= s);
    lemma_first_sep_at(s, sep, s.len() as int);
}

proof fn lemma_split_decompose(s: Seq<char>, sep: char, i: int)
    requires
        0 <= i < s.len(),
        s[i] == sep,
        sep_free(s.subrange(0, i), sep),
    ensures
        split_at_seps(s, sep) == seq![s.subrange(0, i)] + split_at_seps(
            s.subrange(i + 1, s.len() as int),
            sep,
        ),
{
    lemma_first_sep_at(s, sep, i);
}

/// The views of a vector of strings.
pub open spec fn views_of(fields: Seq<String>) -> Seq<Seq<char>> {
    fields.map_values(|f: String| f@)
}

/// Split `s` at every occurrence of `sep`, in order.
pub fn split_str(s: &str, sep: char) -> (fields: Vec<String>)
    ensures
        views_of(fields@) == split_at_seps(s@, sep),
{
    let n = s.unicode_len();
    let mut fields: Vec<String> = Vec::new();
    let mut start: usize = 0;
    let mut i: usize = 0;
    proof {
        assert(s@.subrange(0, n as int) =~= s@);
        assert(views_of(fields@) + split_at_seps(s@, sep) =~~= split_at_seps(s@, sep));
    }
    while i < n
        invariant
            start <= i <= n,
            n == s@.len(),
            sep_free(s@.subrange(start as int, i as int), sep),
            split_at_seps(s@, sep) == views_of(fields@) + split_at_seps(
                s@.subrange(start as int, n as int),
                sep,
            ),
        decreases n - i,
    {
        let c = s.get_char(i);
        if c == sep {
            let field = s.substring_char(start, i);
            let ghost old_fields = fields@;
            fields.push(String::from_str(field));
            proof {
                let rest = s@.subrange(start as int, n as int);
                assert(rest[i - start] == sep);
                assert(rest.subrange(0, i - start) =~= s@.subrange(start as int, i as int));
                lemma_split_decompose(rest, sep, i - start);
                assert(rest.subrange(0, i - start) =~= field@);
                assert(rest.subrange(i - start + 1, rest.len() as int) =~= s@.subrange(
                    i + 1,
                    n as int,
                ));
                assert(views_of(fields@) =~~= views_of(old_fields).push(field@));
                assert(views_of(old_fields).push(field@) + split_at_seps(
                    s@.subrange(i + 1, n as int),
                    sep,
                ) =~~= views_of(old_fields) + (seq![field@] + split_at_seps(
                    s@.subrange(i + 1, n as int),
                    sep,
                )));
                assert(s@.subrange(i + 1, i + 1).len() == 0);
            }
            start = i + 1;
        } else {
            proof {
                assert(s@.subrange(start as int, i + 1).drop_last() =~= s@.subrange(
                    start as int,
                    i as int,
                ));
                assert(s@.subrange(start as int, i + 1).last() == s@[i as int]);
            }
        }
        i += 1;
    }
    let field = s.substring_char(start, n);
    let ghost old_fields = fields@;
    fields.push(String::from_str(field));
    proof {
        lemma_split_no_sep(s@.subrange(start as int, n as int), sep);
        assert(views_of(fields@) =~~= views_of(old_fields).push(field@));
        assert(views_of(old_fields).push(field@) =~~= views_of(old_fields) + seq![field@]);
    }
    fields
}

/// `s` with leading whitespace removed.
pub open spec fn trim_start_spec(s: Seq<char>) -> Seq<char>
    decreases s.len(),
{
    if s.len() > 0 && is_space_char(s[0]) {
        trim_start_spec(s.subrange(1, s.len() as int))
    } else {
        s
    }
}

/// `s` with trailing whitespace removed.
pub open spec fn trim_end_spec(s: Seq<char>) -> Seq<char>
    decreases s.len(),
{
    if s.len() > 0 && is_space_char(s[s.len() - 1]) {
        trim_end_spec(s.subrange(0, s.len() - 1))
    } else {
        s
    }
}

/// `s` with whitespace removed from both ends.
pub open spec fn trim_spec(s: Seq<char>) -> Seq<char> {
    trim_end_spec(trim_start_spec(s))
}

proof fn lemma_trim_start_at(s: Seq<char>, i: int)
    requires
        0 <= i <= s.len(),
        forall|k: int| 0 <= k < i ==> is_space_char(s[k]),
        i == s.len() || !is_space_char(s[i]),
    ensures
        trim_start_spec(s) == s.subrange(i, s.len() as int),
    decreases i,
{
    if i == 0 {
        assert(s.subrange(0, s.len() as int) =~= s);
    } else {
        let t = s.subrange(1, s.len() as int);
        assert(forall|k: int| 0 <= k < i - 1 ==> t[k] == s[k + 1]);
        if i < s.len() {
            assert(t[i - 1] == s[i as int]);
        }
        lemma_trim_start_at(t, i - 1);
        assert(t.subrange(i - 1, t.len() as int) =~= s.subrange(i, s.len() as int));
    }
}

proof fn lemma_trim_end_at(s: Seq<char>, j: int)
    requires
        0 <= j <= s.len(),
        forall|k: int| j <= k < s.len() ==> is_space_char(s[k]),
        j == 0 || !is_space_char(s[j - 1]),
    ensures
        trim_end_spec(s) == s.subrange(0, j),
    decreases s.len() - j,
{
    if j == s.len() {
        assert(s.subrange(0, s.len() as int) =~= s);
    } else {
        let t = s.subrange(0, s.len() - 1);
        assert(forall|k: int| 0 <= k < t.len() ==> t[k] == s[k]);
        lemma_trim_end_at(t, j);
        assert(t.subrange(0, j) =~= s.subrange(0, j));
    }
}

fn is_space(c: char) -> (r: bool)
    ensures
        r == is_space_char(c),
{
    c == ' ' || c == '\t' || c == '\r' || c == '\n'
}

/// Strip whitespace from both ends of `s`.
pub fn trim_str(s: &str) -> (r: String)
    ensures
        r@ == trim_spec(s@),
{
    let n = s.unicode_len();
    let mut i: usize = 0;
    while i < n && is_space(s.get_char(i))
        invariant
            0 <= i <= n,
            n == s@.len(),
            forall|k: int| 0 <= k < i ==> is_space_char(s@[k]),
        decreases n - i,
    {
        i += 1;
    }
    let mut j: usize = n;
    while j > i && is_space(s.get_char(j - 1))
        invariant
            i <= j <= n,
            n == s@.len(),
            forall|k: int| j <= k < n ==> is_space_char(s@[k]),
        decreases j,
    {
        j -= 1;
    }
    proof {
        lemma_trim_start_at(s@, i as int);
        let t = s@.subrange(i as int, n as int);
        assert(forall|k: int| j - i <= k < t.len() ==> t[k] == s@[k + i]);
        if j > i {
            assert(t[j - i - 1] == s@[j - 1]);
        }
        lemma_trim_end_at(t, j - i);
        assert(t.subrange(0, j - i) =~= s@.subrange(i as int, j as int));
    }
    String::from_str(s.substring_char(i, j))
}

/// Compare two string slices character by character.
pub fn str_eq(a: &str, b: &str) -> (r: bool)
    ensures
        r == (a@ == b@),
{
    let n = a.unicode_len();
    if n != b.unicode_len() {
        return false;
    }
    let mut i: usize = 0;
    while i < n
        invariant
            0 <= i <= n,
            n == a@.len(),
            n == b@.len(),
            forall|k: int| 0 <= k < i ==> a@[k] == b@[k],
        decreases n - i,
    {
        if a.get_char(i) != b.get_char(i) {
            return false;
        }
        i += 1;
    }
    proof {
        assert(a@ =~= b@);
    }
    true
}

pub open spec fn is_dec_digit(c: char) -> bool {
    48 <= c as u32 <= 57
}

pub open spec fn dec_digit_val(c: char) -> int {
    c as u32 - 48
}

pub open spec fn all_dec_digits(s: Seq<char>) -> bool {
    forall|i: int| 0 <= i < s.len() ==> is_dec_digit(s[i])
}

/// The value of a sequence of decimal digits, most significant first.
pub open spec fn dec_val(s: Seq<char>) -> int
    decreases s.len(),
{
    if s.len() == 0 {
        0
    } else {
        10 * dec_val(s.drop_last()) + dec_digit_val(s.last())
    }
}

proof fn lemma_dec_val_nonneg(s: Seq<char>)
    requires
        all_dec_digits(s),
    ensures
        dec_val(s) >= 0,
    decreases s.len(),
{
    if s.len() > 0 {
        assert(all_dec_digits(s.drop_last()));
        lemma_dec_val_nonneg(s.drop_last());
    }
}

/// Extending a digit string never decreases its value.
proof fn lemma_dec_val_prefix(s: Seq<char>, i: int)
    requires
        all_dec_digits(s),
        0 <= i <= s.len(),
    ensures
        dec_val(s) >= dec_val(s.subrange(0, i)),
    decreases s.len() - i,
{
    if i == s.len() {
        assert(s.subrange(0, i) =~= s);
    } else {
        assert(all_dec_digits(s.drop_last()));
        assert(s.drop_last().subrange(0, i) =~= s.subrange(0, i));
        lemma_dec_val_prefix(s.drop_last(), i);
        lemma_dec_val_nonneg(s.drop_last());
    }
}

/// Parse the decimal digits of `s` from position `from` on, rejecting
/// values above `limit`.
fn dec_magnitude(s: &str, from: usize, limit: u64) -> (r: Option<u64>)
    requires
        from <= s@.len(),
    ensures
        ({
            let ds = s@.subrange(from as int, s@.len() as int);
            match r {
                Some(v) => ds.len() > 0 && all_dec_digits(ds) && v == dec_val(ds) && v <= limit,
                None => ds.len() == 0 || !all_dec_digits(ds) || dec_val(ds) > limit,
            }
        }),
{
    let ghost ds = s@.subrange(from as int, s@.len() as int);
    let n = s.unicode_len();
    if from == n {
        return None;
    }
    let mut acc: u64 = 0;
    let mut i: usize = from;
    while i < n
        invariant
            from <= i <= n,
            n == s@.len(),
            ds == s@.subrange(from as int, s@.len() as int),
            all_dec_digits(ds.subrange(0, i - from)),
            acc == dec_val(ds.subrange(0, i - from)),
            acc <= limit,
        decreases n - i,
    {
        let c = s.get_char(i);
        let cv = c as u32;
        proof {
            assert(ds[i - from] == s@[i as int]);
            assert(ds.subrange(0, i - from + 1).drop_last() =~= ds.subrange(0, i - from));
            assert(ds.subrange(0, i - from + 1).last() == ds[i - from]);
        }
        if cv < 48 || cv > 57 {
            return None;
        }
        let d = (cv - 48) as u64;
        let step = acc.checked_mul(10);
        let next = match step {
            Some(t) => t.checked_add(d),
            None => None,
        };
        match next {
            Some(v) => {
                if v > limit {
                    proof {
                        if all_dec_digits(ds) {
                            lemma_dec_val_prefix(ds, i - from + 1);
                        }
                    }
                    return None;
                }
                acc = v;
            },
            None => {
                proof {
                    if all_dec_digits(ds) {
                        lemma_dec_val_prefix(ds, i - from + 1);
                    }
                }
                return None;
            },
        }
        i += 1;
    }
    proof {
        assert(ds.subrange(0, n - from) =~= ds);
    }
    Some(acc)
}

/// Base-10 parse of a signed 64-bit integer: an optional sign followed by
/// one or more decimal digits, rejecting values outside the `i64` range.
pub open spec fn parse_i64_spec(s: Seq<char>) -> Option<i64> {
    if s.len() > 0 && (s[0] == '-' || s[0] == '+') {
        let ds = s.subrange(1, s.len() as int);
        if ds.len() > 0 && all_dec_digits(ds) {
            if s[0] == '-' {
                if dec_val(ds) <= 9223372036854775808 {
                    Some((-dec_val(ds)) as i64)
                } else {
                    None
                }
            } else {
                if dec_val(ds) <= 9223372036854775807 {
                    Some(dec_val(ds) as i64)
                } else {
                    None
                }
            }
        } else {
            None
        }
    } else if s.len() > 0 && all_dec_digits(s) {
        if dec_val(s) <= 9223372036854775807 {
            Some(dec_val(s) as i64)
        } else {
            None
        }
    } else {
        None
    }
}

pub fn parse_i64(s: &str) -> (r: Option<i64>)
    ensures
        r == parse_i64_spec(s@),
{
    let n = s.unicode_len();
    if n == 0 {
        return None;
    }
    let c0 = s.get_char(0);
    if c0 == '-' {
        match dec_magnitude(s, 1, 9223372036854775808u64) {
            Some(m) => {
                if m == 9223372036854775808u64 {
                    Some(i64::MIN)
                } else {
                    Some(-(m as i64))
                }
            },
            None => None,
        }
    } else if c0 == '+' {
        match dec_magnitude(s, 1, 9223372036854775807u64) {
            Some(m) => Some(m as i64),
            None => None,
        }
    } else {
        proof {
            assert(s@.subrange(0, n as int) =~= s@);
        }
        match dec_magnitude(s, 0, 9223372036854775807u64) {
            Some(m) => Some(m as i64),
            None => None,
        }
    }
}

pub open spec fn is_base36_digit(c: char) -> bool {
    is_dec_digit(c) || (97 <= c as u32 <= 122) || (65 <= c as u32 <= 90)
}

pub open spec fn base36_digit_val(c: char) -> int {
    if is_dec_digit(c) {
        c as u32 - 48
    } else if 97 <= c as u32 <= 122 {
        c as u32 - 97 + 10
    } else {
        c as u32 - 65 + 10
    }
}

pub open spec fn all_base36_digits(s: Seq<char>) -> bool {
    forall|i: int| 0 <= i < s.len() ==> is_base36_digit(s[i])
}

/// The value of a sequence of base-36 digits, most significant first.
pub open spec fn base36_val(s: Seq<char>) -> int
    decreases s.len(),
{
    if s.len() == 0 {
        0
    } else {
        36 * base36_val(s.drop_last()) + base36_digit_val(s.last())
    }
}

proof fn lemma_base36_val_nonneg(s: Seq<char>)
    requires
        all_base36_digits(s),
    ensures
        base36_val(s) >= 0,
    decreases s.len(),
{
    if s.len() > 0 {
        assert(all_base36_digits(s.drop_last()));
        lemma_base36_val_nonneg(s.drop_last());
    }
}

proof fn lemma_base36_val_prefix(s: Seq<char>, i: int)
    requires
        all_base36_digits(s),
        0 <= i <= s.len(),
    ensures
        base36_val(s) >= base36_val(s.subrange(0, i)),
    decreases s.len() - i,
{
    if i == s.len() {
        assert(s.subrange(0, i) =~= s);
    } else {
        assert(all_base36_digits(s.drop_last()));
        assert(s.drop_last().subrange(0, i) =~= s.subrange(0, i));
        lemma_base36_val_prefix(s.drop_last(), i);
        lemma_base36_val_nonneg(s.drop_last());
    }
}

/// Base-36 parse of an unsigned 32-bit integer: an optional leading `+`
/// followed by one or more digits `0-9`, `a-z` or `A-Z` (case-insensitive),
/// rejecting values above `u32::MAX`.
pub open spec fn parse_base36_u32_spec(s: Seq<char>) -> Option<u32> {
    let ds = if s.len() > 0 && s[0] == '+' {
        s.subrange(1, s.len() as int)
    } else {
        s
    };
    if ds.len() > 0 && all_base36_digits(ds) && base36_val(ds) <= 4294967295 {
        Some(base36_val(ds) as u32)
    } else {
        None
    }
}

fn base36_digit_of(c: char) -> (r: Option<u64>)
    ensures
        match r {
            Some(v) => is_base36_digit(c) && v == base36_digit_val(c),
            None => !is_base36_digit(c),
        },
{
    let cv = c as u32;
    if 48 <= cv && cv <= 57 {
        Some((cv - 48) as u64)
    } else if 97 <= cv && cv <= 122 {
        Some((cv - 97 + 10) as u64)
    } else if 65 <= cv && cv <= 90 {
        Some((cv - 65 + 10) as u64)
    } else {
        None
    }
}

fn base36_magnitude(s: &str, from: usize) -> (r: Option<u64>)
    requires
        from <= s@.len(),
    ensures
        ({
            let ds = s@.subrange(from as int, s@.len() as int);
            match r {
                Some(v) => ds.len() > 0 && all_base36_digits(ds) && v == base36_val(ds) && v
                    <= 4294967295,
                None => ds.len() == 0 || !all_base36_digits(ds) || base36_val(ds) > 4294967295,
            }
        }),
{
    let ghost ds = s@.subrange(from as int, s@.len() as int);
    let n = s.unicode_len();
    if from == n {
        return None;
    }
    let mut acc: u64 = 0;
    let mut i: usize = from;
    while i < n
        invariant
            from <= i <= n,
            n == s@.len(),
            ds == s@.subrange(from as int, s@.len() as int),
            all_base36_digits(ds.subrange(0, i - from)),
            acc == base36_val(ds.subrange(0, i - from)),
            acc <= 4294967295,
        decreases n - i,
    {
        let c = s.get_char(i);
        proof {
            assert(ds[i - from] == s@[i as int]);
            assert(ds.subrange(0, i - from + 1).drop_last() =~= ds.subrange(0, i - from));
            assert(ds.subrange(0, i - from + 1).last() == ds[i - from]);
        }
        match base36_digit_of(c) {
            Some(d) => {
                let v = acc * 36 + d;
                if v > 4294967295 {
                    proof {
                        if all_base36_digits(ds) {
                            lemma_base36_val_prefix(ds, i - from + 1);
                        }
                    }
                    return None;
                }
                acc = v;
            },
            None => {
                return None;
            },
        }
        i += 1;
    }
    proof {
        assert(ds.subrange(0, n - from) =~= ds);
    }
    Some(acc)
}

pub fn parse_base36_u32(s: &str) -> (r: Option<u32>)
    ensures
        r == parse_base36_u32_spec(s@),
{
    let n = s.unicode_len();
    let from: usize = if n > 0 && s.get_char(0) == '+' {
        1
    } else {
        0
    };
    proof {
        if from == 0 {
            assert(s@.subrange(0, n as int) =~= s@);
        }
    }
    match base36_magnitude(s, from) {
        Some(m) => Some(m as u32),
        None => None,
    }
}

pub open spec fn digit_char(d: int) -> char {
    if d == 0 {
        '0'
    } else if d == 1 {
        '1'
    } else if d == 2 {
        '2'
    } else if d == 3 {
        '3'
    } else if d == 4 {
        '4'
    } else if d == 5 {
        '5'
    } else if d == 6 {
        '6'
    } else if d == 7 {
        '7'
    } else if d == 8 {
        '8'
    } else {
        '9'
    }
}

/// The decimal representation of `n`, most significant digit first.
pub open spec fn dec_str_of(n: nat) -> Seq<char>
    decreases n,
{
    if n < 10 {
        seq![digit_char(n as int)]
    } else {
        dec_str_of(n / 10).push(digit_char((n % 10) as int))
    }
}

pub proof fn lemma_dec_str_nonempty(n: nat)
    ensures
        dec_str_of(n).len() >= 1,
{
    if n >= 10 {
        assert(dec_str_of(n) == dec_str_of(n / 10).push(digit_char((n % 10) as int)));
    }
}

fn digit_str(d: u64) -> (r: &'static str)
    requires
        d < 10,
    ensures
        r@ == seq![digit_char(d as int)],
{
    proof {
        reveal_strlit("0");
        reveal_strlit("1");
        reveal_strlit("2");
        reveal_strlit("3");
        reveal_strlit("4");
        reveal_strlit("5");
        reveal_strlit("6");
        reveal_strlit("7");
        reveal_strlit("8");
        reveal_strlit("9");
    }
    let r: &'static str = if d == 0 {
        "0"
    } else if d == 1 {
        "1"
    } else if d == 2 {
        "2"
    } else if d == 3 {
        "3"
    } else if d == 4 {
        "4"
    } else if d == 5 {
        "5"
    } else if d == 6 {
        "6"
    } else if d == 7 {
        "7"
    } else if d == 8 {
        "8"
    } else {
        "9"
    };
    proof {
        assert(r@ =~= seq![digit_char(d as int)]);
    }
    r
}

/// Format `n` in decimal.
pub fn u64_to_dec(n: u64) -> (s: String)
    ensures
        s@ == dec_str_of(n as nat),
    decreases n,
{
    if n < 10 {
        String::from_str(digit_str(n))
    } else {
        let mut s = u64_to_dec(n / 10);
        s.append(digit_str(n % 10));
        proof {
            assert(dec_str_of((n / 10) as nat) + seq![
                digit_char((n % 10) as int),
            ] =~= dec_str_of((n / 10) as nat).push(digit_char((n % 10) as int)));
        }
        s
    }
}

/// `sub` occurs contiguously somewhere in `s`.
pub open spec fn has_substring(s: Seq<char>, sub: Seq<char>) -> bool {
    exists|i: int|
        0 <= i && i + sub.len() <= s.len() && #[trigger] s.subrange(i, i + sub.len() as int)
            == sub
}

fn match_at(s: &str, sub: &str, at: usize) -> (r: bool)
    requires
        at + sub@.len() <= s@.len(),
    ensures
        r == (s@.subrange(at as int, at + sub@.len() as int) == sub@),
{
    let n = s.unicode_len();
    let m = sub.unicode_len();
    let mut k: usize = 0;
    while k < m
        invariant
            0 <= k <= m,
            m == sub@.len(),
            n == s@.len(),
            at + m <= n,
            forall|j: int| 0 <= j < k ==> s@[at + j] == sub@[j],
        decreases m - k,
    {
        if s.get_char(at + k) != sub.get_char(k) {
            proof {
                assert(s@.subrange(at as int, at + sub@.len() as int)[k as int] == s@[at + k]);
            }
            return false;
        }
        k += 1;
    }
    proof {
        assert(s@.subrange(at as int, at + sub@.len() as int) =~= sub@);
    }
    true
}

/// Whether `sub` occurs contiguously in `s`.
pub fn str_contains(s: &str, sub: &str) -> (r: bool)
    ensures
        r == has_substring(s@, sub@),
{
    let n = s.unicode_len();
    let m = sub.unicode_len();
    if m > n {
        return false;
    }
    if m == 0 {
        proof {
            let z: int = 0;
            assert(s@.subrange(z, z + sub@.len() as int) =~= sub@);
        }
        return true;
    }
    let mut i: usize = 0;
    while i <= n - m
        invariant
            0 <= i <= n - m + 1,
            0 < m <= n,
            n == s@.len(),
            m == sub@.len(),
            forall|j: int|
                0 <= j < i ==> #[trigger] s@.subrange(j, j + sub@.len() as int) != sub@,
        decreases n - m - i + 1,
    {
        if match_at(s, sub, i) {
            return true;
        }
        i += 1;
    }
    false
}

/// The ASCII-lowercase counterpart of `c`; other characters are unchanged.
pub open spec fn lower_char(c: char) -> char {
    if c == 'A' {
        'a'
    } else if c == 'B' {
        'b'
    } else if c == 'C' {
        'c'
    } else if c == 'D' {
        'd'
    } else if c == 'E' {
        'e'
    } else if c == 'F' {
        'f'
    } else if c == 'G' {
        'g'
    } else if c == 'H' {
        'h'
    } else if c == 'I' {
        'i'
    } else if c == 'J' {
        'j'
    } else if c == 'K' {
        'k'
    } else if c == 'L' {
        'l'
    } else if c == 'M' {
        'm'
    } else if c == 'N' {
        'n'
    } else if c == 'O' {
        'o'
    } else if c == 'P' {
        'p'
    } else if c == 'Q' {
        'q'
    } else if c == 'R' {
        'r'
    } else if c == 'S' {
        's'
    } else if c == 'T' {
        't'
    } else if c == 'U' {
        'u'
    } else if c == 'V' {
        'v'
    } else if c == 'W' {
        'w'
    } else if c == 'X' {
        'x'
    } else if c == 'Y' {
        'y'
    } else if c == 'Z' {
        'z'
    } else {
        c
    }
}

/// `s` with every ASCII uppercase letter lowered.
pub open spec fn lower_seq(s: Seq<char>) -> Seq<char> {
    s.map_values(|c: char| lower_char(c))
}

fn lower_lit(c: char) -> (r: Option<&'static str>)
    ensures
        match r {
            Some(t) => t@ == seq![lower_char(c)],
            None => lower_char(c) == c,
        },
{
    let r: Option<&'static str> = if c == 'A' {
        Some("a")
    } else if c == 'B' {
        Some("b")
    } else if c == 'C' {
        Some("c")
    } else if c == 'D' {
        Some("d")
    } else if c == 'E' {
        Some("e")
    } else if c == 'F' {
        Some("f")
    } else if c == 'G' {
        Some("g")
    } else if c == 'H' {
        Some("h")
    } else if c == 'I' {
        Some("i")
    } else if c == 'J' {
        Some("j")
    } else if c == 'K' {
        Some("k")
    } else if c == 'L' {
        Some("l")
    } else if c == 'M' {
        Some("m")
    } else if c == 'N' {
        Some("n")
    } else if c == 'O' {
        Some("o")
    } else if c == 'P' {
        Some("p")
    } else if c == 'Q' {
        Some("q")
    } else if c == 'R' {
        Some("r")
    } else if c == 'S' {
        Some("s")
    } else if c == 'T' {
        Some("t")
    } else if c == 'U' {
        Some("u")
    } else if c == 'V' {
        Some("v")
    } else if c == 'W' {
        Some("w")
    } else if c == 'X' {
        Some("x")
    } else if c == 'Y' {
        Some("y")
    } else if c == 'Z' {
        Some("z")
    } else {
        None
    };
    proof {
        reveal_strlit("a");
        reveal_strlit("b");
        reveal_strlit("c");
        reveal_strlit("d");
        reveal_strlit("e");
        reveal_strlit("f");
        reveal_strlit("g");
        reveal_strlit("h");
        reveal_strlit("i");
        reveal_strlit("j");
        reveal_strlit("k");
        reveal_strlit("l");
        reveal_strlit("m");
        reveal_strlit("n");
        reveal_strlit("o");
        reveal_strlit("p");
        reveal_strlit("q");
        reveal_strlit("r");
        reveal_strlit("s");
        reveal_strlit("t");
        reveal_strlit("u");
        reveal_strlit("v");
        reveal_strlit("w");
        reveal_strlit("x");
        reveal_strlit("y");
        reveal_strlit("z");
        if r is Some {
            assert(r->Some_0@ =~= seq![lower_char(c)]);
        }
    }
    r
}

/// Lower every ASCII uppercase letter of `s`.
pub fn ascii_lowercase(s: &str) -> (r: String)
    ensures
        r@ == lower_seq(s@),
{
    let n = s.unicode_len();
    let mut out = String::new();
    let mut i: usize = 0;
    proof {
        assert(out@ =~= lower_seq(s@.subrange(0, 0)));
    }
    while i < n
        invariant
            0 <= i <= n,
            n == s@.len(),
            out@ == lower_seq(s@.subrange(0, i as int)),
        decreases n - i,
    {
        let c = s.get_char(i);
        match lower_lit(c) {
            Some(t) => out.append(t),
            None => out.append(s.substring_char(i, i + 1)),
        }
        proof {
            assert(s@.subrange(i as int, i + 1) =~= seq![s@[i as int]]);
            assert(out@ =~= lower_seq(s@.subrange(0, i + 1)));
        }
        i += 1;
    }
    proof {
        assert(s@.subrange(0, n as int) =~= s@);
    }
    out
}

/// Base-10 parse of a boolean: exactly "true" or "false".
pub open spec fn parse_bool_spec(s: Seq<char>) -> Option<bool> {
    if s == "true"@ {
        Some(true)
    } else if s == "false"@ {
        Some(false)
    } else {
        None
    }
}

pub fn parse_bool(s: &str) -> (r: Option<bool>)
    ensures
        r == parse_bool_spec(s@),
{
    if str_eq(s, "true") {
        Some(true)
    } else if str_eq(s, "false") {
        Some(false)
    } else {
        None
    }
}

} // verus!
