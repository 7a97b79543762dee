//! Line codec of telemetry records: the JSON object shapes written to
//! the buffer file and the monitor upload body, with a serializer and a
//! parser that are exact inverses.

use vstd::prelude::*;
use crate::records::{APICallsDotRecord, ApiName, DotRecord, DotType, PunishedCountDotRecord};

verus! {

/// Whether `c` is a decimal digit.
pub open spec fn spec_is_digit(c: char) -> bool {
    48 <= (c as u32) <= 57
}

/// The digit character of a value below ten.
pub open spec fn spec_digit_char(d: int) -> char {
    if d == 0 {
        '0'
    } else if d == 1 {
        '1'
    } else if d == 2 {
        '2'
    } else if d == 3 {
        '3'
    } else if d == 4 {
        '4'
    } else if d == 5 {
        '5'
    } else if d == 6 {
        '6'
    } else if d == 7 {
        '7'
    } else if d == 8 {
        '8'
    } else {
        '9'
    }
}

/// The value of a digit character.
pub open spec fn spec_digit_val(c: char) -> int {
    (c as u32) - 48
}

/// The decimal digits of `n`, most significant first.
pub open spec fn spec_dec_digits(n: int) -> Seq<char>
    decreases n,
{
    if n < 10 {
        seq![spec_digit_char(n)]
    } else {
        spec_dec_digits(n / 10).push(spec_digit_char(n % 10))
    }
}

/// The value of a digit string, most significant first.
pub open spec fn spec_seq_val(ds: Seq<char>) -> int
    decreases ds.len(),
{
    if ds.len() == 0 {
        0
    } else {
        spec_seq_val(ds.take(ds.len() as int - 1)) * 10 + spec_digit_val(ds.last())
    }
}

/// Whether every character of `ds` is a digit.
pub open spec fn spec_all_digits(ds: Seq<char>) -> bool {
    forall|k: int| 0 <= k < ds.len() ==> spec_is_digit(#[trigger] ds[k])
}

/// A digit below ten maps to its character and back.
proof fn lemma_digit_char_val(d: int)
    requires
        0 <= d < 10,
    ensures
        spec_is_digit(spec_digit_char(d)),
        spec_digit_val(spec_digit_char(d)) == d,
        spec_digit_char(d) != '"',
{
}

/// A digit character maps to its value and back.
proof fn lemma_digit_val_char(c: char)
    requires
        spec_is_digit(c),
    ensures
        0 <= spec_digit_val(c) < 10,
        spec_digit_char(spec_digit_val(c)) == c,
{
}

/// Shape of a decimal rendering: at least one digit, all digits, and no
/// leading zero unless the value is zero itself.
proof fn lemma_dec_digits_props(n: int)
    requires
        n >= 0,
    ensures
        spec_dec_digits(n).len() >= 1,
        spec_all_digits(spec_dec_digits(n)),
        n >= 1 ==> spec_dec_digits(n)[0] != '0',
        n == 0 ==> spec_dec_digits(n) == seq!['0'],
        n < 10 ==> spec_dec_digits(n).len() == 1,
    decreases n,
{
    if n < 10 {
        lemma_digit_char_val(n);
        assert(spec_dec_digits(n) == seq![spec_digit_char(n)]);
        assert forall|k: int| 0 <= k < 1 implies spec_is_digit(#[trigger] spec_dec_digits(n)[k]) by {
            assert(spec_dec_digits(n)[0] == spec_digit_char(n));
        }
    } else {
        lemma_dec_digits_props(n / 10);
        lemma_digit_char_val(n % 10);
        let pre = spec_dec_digits(n / 10);
        let whole = pre.push(spec_digit_char(n % 10));
        assert(spec_dec_digits(n) == whole);
        assert(whole[0] == pre[0]);
        assert forall|k: int| 0 <= k < whole.len() implies spec_is_digit(#[trigger] whole[k]) by {
            if k < pre.len() {
                assert(whole[k] == pre[k]);
            } else {
                assert(whole[k] == spec_digit_char(n % 10));
            }
        }
    }
}

/// Rendering then reading a value gives it back.
proof fn lemma_seq_val_dec(n: int)
    requires
        n >= 0,
    ensures
        spec_seq_val(spec_dec_digits(n)) == n,
    decreases n,
{
    if n < 10 {
        lemma_digit_char_val(n);
        let ds = spec_dec_digits(n);
        assert(ds.take(0) =~= Seq::<char>::empty());
        assert(spec_seq_val(ds) == spec_seq_val(ds.take(0)) * 10 + spec_digit_val(ds.last()));
    } else {
        lemma_seq_val_dec(n / 10);
        lemma_digit_char_val(n % 10);
        let pre = spec_dec_digits(n / 10);
        let ds = spec_dec_digits(n);
        assert(ds == pre.push(spec_digit_char(n % 10)));
        assert(ds.take(ds.len() as int - 1) =~= pre);
        assert(ds.last() == spec_digit_char(n % 10));
        assert(spec_seq_val(ds) == n / 10 * 10 + n % 10);
        assert(n / 10 * 10 + n % 10 == n) by (nonlinear_arith)
            requires
                n >= 0,
        ;
    }
}

/// A non-empty digit string without a leading zero reads back to a value
/// that renders to the same string.
proof fn lemma_dec_of_seq(ds: Seq<char>)
    requires
        ds.len() >= 1,
        spec_all_digits(ds),
        ds.len() == 1 || ds[0] != '0',
    ensures
        spec_seq_val(ds) >= 0,
        ds.len() > 1 ==> spec_seq_val(ds) >= 10,
        spec_dec_digits(spec_seq_val(ds)) == ds,
    decreases ds.len(),
{
    if ds.len() == 1 {
        lemma_digit_val_char(ds[0]);
        assert(ds.take(0) =~= Seq::<char>::empty());
        assert(spec_seq_val(Seq::<char>::empty()) == 0);
        assert(spec_seq_val(ds) == spec_digit_val(ds[0]));
        assert(spec_dec_digits(spec_seq_val(ds)) == seq![spec_digit_char(spec_digit_val(ds[0]))]);
        assert(spec_dec_digits(spec_seq_val(ds)) =~= ds);
    } else {
        let pre = ds.take(ds.len() as int - 1);
        assert(pre[0] == ds[0]);
        assert(spec_all_digits(pre)) by {
            assert(forall|k: int| 0 <= k < pre.len() ==> pre[k] == ds[k]);
        }
        lemma_dec_of_seq(pre);
        lemma_digit_val_char(ds.last());
        let m = spec_seq_val(pre);
        let d = spec_digit_val(ds.last());
        assert(spec_seq_val(ds) == m * 10 + d);
        assert(m >= 1) by {
            if pre.len() == 1 {
                lemma_digit_val_char(pre[0]);
                assert(pre.take(0) =~= Seq::<char>::empty());
                assert(spec_seq_val(Seq::<char>::empty()) == 0);
                assert(m == spec_digit_val(pre[0]));
                assert(pre[0] != '0');
                assert((pre[0] as u32) != 48);
            }
        }
        assert(m * 10 + d >= 10 && (m * 10 + d) / 10 == m && (m * 10 + d) % 10 == d)
            by (nonlinear_arith)
            requires
                m >= 1,
                0 <= d < 10,
        ;
        assert(spec_dec_digits(spec_seq_val(ds)) == spec_dec_digits(m).push(spec_digit_char(d)));
        assert(spec_dec_digits(spec_seq_val(ds)) =~= ds);
    }
}

/// A digit string reads to a value that is not negative.
proof fn lemma_seq_val_nonneg(ds: Seq<char>)
    requires
        spec_all_digits(ds),
    ensures
        spec_seq_val(ds) >= 0,
    decreases ds.len(),
{
    if ds.len() > 0 {
        let pre = ds.take(ds.len() as int - 1);
        assert(spec_all_digits(pre)) by {
            assert(forall|k: int| 0 <= k < pre.len() ==> pre[k] == ds[k]);
        }
        lemma_seq_val_nonneg(pre);
        lemma_digit_val_char(ds.last());
        assert(spec_seq_val(pre) * 10 + spec_digit_val(ds.last()) >= 0) by (nonlinear_arith)
            requires
                spec_seq_val(pre) >= 0,
                spec_digit_val(ds.last()) >= 0,
        ;
    }
}

/// Reading one more digit can only grow the value.
proof fn lemma_seq_val_step(ds: Seq<char>, k: int)
    requires
        0 <= k < ds.len(),
        spec_all_digits(ds),
    ensures
        spec_seq_val(ds.take(k)) >= 0,
        spec_seq_val(ds.take(k)) <= spec_seq_val(ds.take(k + 1)),
        spec_seq_val(ds.take(k + 1)) == spec_seq_val(ds.take(k)) * 10 + spec_digit_val(ds[k]),
    decreases k,
{
    if k > 0 {
        lemma_seq_val_step(ds, k - 1);
    } else {
        assert(ds.take(0) =~= Seq::<char>::empty());
    }
    let ext = ds.take(k + 1);
    assert(ext.take(k) =~= ds.take(k));
    assert(ext.last() == ds[k]);
    lemma_digit_val_char(ds[k]);
    assert(spec_seq_val(ds.take(k)) * 10 + spec_digit_val(ds[k]) >= spec_seq_val(ds.take(k)))
        by (nonlinear_arith)
        requires
            spec_seq_val(ds.take(k)) >= 0,
            spec_digit_val(ds[k]) >= 0,
    ;
}

/// Every prefix of a digit string reads to at most the whole string's
/// value.
proof fn lemma_seq_val_prefix(ds: Seq<char>, k: int)
    requires
        0 <= k <= ds.len(),
        spec_all_digits(ds),
    ensures
        spec_seq_val(ds.take(k)) >= 0,
        spec_seq_val(ds.take(k)) <= spec_seq_val(ds),
    decreases ds.len() - k,
{
    if k == ds.len() {
        assert(ds.take(k) =~= ds);
        lemma_seq_val_nonneg(ds);
    } else {
        lemma_seq_val_step(ds, k);
        lemma_seq_val_prefix(ds, k + 1);
    }
}

/// Whether the characters of `lit` stand at position `i` of `s`.
pub open spec fn spec_lit_at(s: Seq<char>, i: int, lit: Seq<char>) -> bool {
    i + lit.len() <= s.len() && s.subrange(i, i + lit.len()) == lit
}

/// Matches a fixed token at position `i`: the position after it on
/// success, and a refusal exactly when the token does not stand there.
fn match_lit(s: &str, i: usize, lit: &str) -> (r: Option<usize>)
    ensures
        r matches Some(j) ==> j == i + lit@.len() && spec_lit_at(s@, i as int, lit@),
        r is None ==> !spec_lit_at(s@, i as int, lit@),
{
    let s_len = s.unicode_len();
    let l_len = lit.unicode_len();
    if i > s_len || l_len > s_len - i {
        proof {
            assert(!spec_lit_at(s@, i as int, lit@));
        }
        return None;
    }
    for k in 0..l_len
        invariant
            s_len == s@.len(),
            l_len == lit@.len(),
            i + l_len <= s_len,
            forall|m: int| 0 <= m < k ==> s@[i + m] == lit@[m],
    {
        if s.get_char(i + k) != lit.get_char(k) {
            proof {
                assert(s@[i + k as int] != lit@[k as int]);
                assert(!spec_lit_at(s@, i as int, lit@)) by {
                    if spec_lit_at(s@, i as int, lit@) {
                        assert(s@.subrange(i as int, i + lit@.len())[k as int] == lit@[k as int]);
                    }
                }
            }
            return None;
        }
    }
    proof {
        assert(s@.subrange(i as int, i + lit@.len()) =~= lit@);
    }
    Some(i + l_len)
}

/// Finds the first `"` at or after position `i`.
fn scan_quote(s: &str, i: usize) -> (r: Option<usize>)
    ensures
        r matches Some(j) ==> i <= j < s@.len() && s@[j as int] == '"' && forall|k: int|
            i <= k < j ==> s@[k] != '"',
        r is None ==> forall|k: int| i <= k < s@.len() ==> s@[k] != '"',
{
    let s_len = s.unicode_len();
    if i >= s_len {
        return None;
    }
    let mut j = i;
    while j < s_len
        invariant
            s_len == s@.len(),
            i <= j <= s_len,
            forall|k: int| i <= k < j ==> s@[k] != '"',
        decreases s_len - j,
    {
        if s.get_char(j) == '"' {
            return Some(j);
        }
        j = j + 1;
    }
    None
}

/// Whether the decimal rendering of `v` stands at position `i` of `s`,
/// ended by the string's end or a non-digit.
pub open spec fn spec_num_at(s: Seq<char>, i: int, v: int) -> bool {
    let l = spec_dec_digits(v).len() as int;
    &&& i + l <= s.len()
    &&& s.subrange(i, i + l) == spec_dec_digits(v)
    &&& (i + l == s.len() || !spec_is_digit(s[i + l]))
}

/// Parses the canonical decimal at position `i`: no empty run, no
/// leading zero, nothing past the machine word.  Refusals and results
/// are exact: a result is the value whose rendering stands there.
fn parse_u64(s: &str, i: usize) -> (r: Option<(u64, usize)>)
    ensures
        r matches Some(p) ==> i <= p.1 <= s@.len() && s@.subrange(i as int, p.1 as int)
            == spec_dec_digits(p.0 as int) && (p.1 == s@.len() || !spec_is_digit(s@[p.1 as int])),
        forall|v: u64|
            spec_num_at(s@, i as int, v as int) ==> r == Some(
                (v, (i + spec_dec_digits(v as int).len()) as usize),
            ),
{
    let s_len = s.unicode_len();
    if i >= s_len {
        proof {
            assert forall|v: u64| !spec_num_at(s@, i as int, v as int) by {
                lemma_dec_digits_props(v as int);
            }
        }
        return None;
    }
    let c0 = s.get_char(i);
    let v0 = c0 as u32;
    if !(48 <= v0 && v0 <= 57) {
        proof {
            assert forall|v: u64| !spec_num_at(s@, i as int, v as int) by {
                if spec_num_at(s@, i as int, v as int) {
                    lemma_dec_digits_props(v as int);
                    let l = spec_dec_digits(v as int).len() as int;
                    assert(s@.subrange(i as int, i + l)[0] == s@[i as int]);
                    assert(spec_is_digit(spec_dec_digits(v as int)[0]));
                }
            }
        }
        return None;
    }
    let d0: u64 = (v0 - 48) as u64;
    proof {
        assert(spec_is_digit(s@[i as int]));
        assert(d0 as int == spec_digit_val(s@[i as int]));
    }
    if d0 == 0 {
        if i + 1 < s_len {
            let c1 = s.get_char(i + 1);
            let v1 = c1 as u32;
            if 48 <= v1 && v1 <= 57 {
                proof {
                    assert forall|v: u64| !spec_num_at(s@, i as int, v as int) by {
                        if spec_num_at(s@, i as int, v as int) {
                            lemma_dec_digits_props(v as int);
                            let l = spec_dec_digits(v as int).len() as int;
                            assert(s@.subrange(i as int, i + l)[0] == s@[i as int]);
                            if v >= 1 {
                                assert(spec_dec_digits(v as int)[0] != '0');
                                assert((s@[i as int] as u32) == 48);
                                assert(s@[i as int] == '0');
                            } else {
                                assert(l == 1);
                                assert(spec_is_digit(s@[i + 1]));
                            }
                        }
                    }
                }
                return None;
            }
        }
        proof {
            lemma_dec_digits_props(0);
            assert(s@[i as int] == '0') by {
                assert((s@[i as int] as u32) == 48);
            }
            assert(s@.subrange(i as int, i + 1) =~= seq!['0']);
            assert forall|v: u64|
                spec_num_at(s@, i as int, v as int) implies Some((0u64, (i + 1) as usize)) == Some(
                (v, (i + spec_dec_digits(v as int).len()) as usize),
            ) by {
                lemma_dec_digits_props(v as int);
                let l = spec_dec_digits(v as int).len() as int;
                assert(s@.subrange(i as int, i + l)[0] == s@[i as int]);
                if v >= 1 {
                    assert(spec_dec_digits(v as int)[0] != '0');
                    assert(false);
                } else {
                    assert(l == 1);
                }
            }
        }
        return Some((0, i + 1));
    }
    let mut v: u64 = d0;
    let mut j = i + 1;
    proof {
        assert(s@.subrange(i as int, j as int) =~= seq![s@[i as int]]);
        assert(s@.subrange(i as int, j as int).take(0) =~= Seq::<char>::empty());
        assert(spec_seq_val(Seq::<char>::empty()) == 0);
        assert(spec_seq_val(s@.subrange(i as int, j as int)) == d0 as int);
    }
    loop
        invariant
            s_len == s@.len(),
            i < s_len,
            i < j <= s_len,
            spec_is_digit(s@[i as int]),
            s@[i as int] != '0',
            forall|k: int| i <= k < j ==> spec_is_digit(#[trigger] s@[k]),
            v as int == spec_seq_val(s@.subrange(i as int, j as int)),
        ensures
            s_len == s@.len(),
            i < j <= s_len,
            spec_is_digit(s@[i as int]),
            s@[i as int] != '0',
            forall|k: int| i <= k < j ==> spec_is_digit(#[trigger] s@[k]),
            v as int == spec_seq_val(s@.subrange(i as int, j as int)),
            j == s_len || !spec_is_digit(s@[j as int]),
        decreases s_len - j,
    {
        if j == s_len {
            break;
        }
        let c = s.get_char(j);
        let cv = c as u32;
        if !(48 <= cv && cv <= 57) {
            break;
        }
        let d: u64 = (cv - 48) as u64;
        let ghost pre = s@.subrange(i as int, j as int);
        let ghost ext = s@.subrange(i as int, j + 1);
        proof {
            assert(ext.take(ext.len() as int - 1) =~= pre);
            assert(ext.last() == s@[j as int]);
            assert(spec_seq_val(ext) == spec_seq_val(pre) * 10 + spec_digit_val(s@[j as int]));
        }
        let overflowed = v > (u64::MAX - d) / 10;
        let next = if !overflowed {
            v * 10 + d
        } else {
            0
        };
        if overflowed {
            proof {
                assert(v as int * 10 + d > u64::MAX) by (nonlinear_arith)
                    requires
                        v > (u64::MAX - d) / 10,
                        0 <= d < 10,
                ;
                assert forall|w: u64| !spec_num_at(s@, i as int, w as int) by {
                    if spec_num_at(s@, i as int, w as int) {
                        let ds = spec_dec_digits(w as int);
                        let l = ds.len() as int;
                        lemma_dec_digits_props(w as int);
                        assert(j < i + l) by {
                            if j >= i + l {
                                if i + l == s@.len() {
                                    assert(j == i + l);
                                    assert(spec_is_digit(s@[j as int]));
                                } else {
                                    assert(spec_is_digit(s@[i + l]));
                                }
                            }
                        }
                        assert(pre =~= ds.take(j - i)) by {
                            assert(forall|k: int|
                                0 <= k < j - i ==> #[trigger] s@.subrange(i as int, i + l)[k]
                                    == s@[i + k]);
                        }
                        assert(ext =~= ds.take(j - i + 1)) by {
                            assert(forall|k: int|
                                0 <= k < j - i + 1 ==> #[trigger] s@.subrange(i as int, i + l)[k]
                                    == s@[i + k]);
                        }
                        lemma_seq_val_step(ds, j - i);
                        lemma_seq_val_prefix(ds, j - i + 1);
                        lemma_seq_val_dec(w as int);
                        assert(spec_seq_val(ext) <= w as int);
                    }
                }
            }
            return None;
        }
        proof {
            assert(next as int == spec_seq_val(ext)) by (nonlinear_arith)
                requires
                    next as int == v as int * 10 + d,
                    spec_seq_val(ext) == spec_seq_val(pre) * 10 + spec_digit_val(s@[j as int]),
                    v as int == spec_seq_val(pre),
                    d as int == spec_digit_val(s@[j as int]),
            ;
        }
        v = next;
        j = j + 1;
    }
    proof {
        let ds = s@.subrange(i as int, j as int);
        assert(ds[0] == s@[i as int]);
        lemma_dec_of_seq(ds);
        assert forall|w: u64|
            spec_num_at(s@, i as int, w as int) implies Some((v, j)) == Some(
            (w, (i + spec_dec_digits(w as int).len()) as usize),
        ) by {
            let dw = spec_dec_digits(w as int);
            let l = dw.len() as int;
            lemma_dec_digits_props(w as int);
            assert(j == i + l) by {
                if j < i + l {
                    assert(s@.subrange(i as int, i + l)[j - i] == s@[j as int]);
                    assert(spec_is_digit(dw[j - i]));
                } else if j > i + l {
                    if i + l < s@.len() {
                        assert(spec_is_digit(s@[i + l]));
                    }
                }
            }
            assert(ds =~= dw) by {
                assert(forall|k: int|
                    0 <= k < l ==> #[trigger] s@.subrange(i as int, i + l)[k] == s@[i + k] && ds[k]
                        == s@[i + k]);
            }
            lemma_seq_val_dec(w as int);
        }
    }
    Some((v, j))
}

/// The textual name of a record origin, as the wire form writes it.
pub open spec fn spec_dot_type_str(t: DotType) -> Seq<char> {
    match t {
        DotType::Sdk => "sdk"@,
        DotType::Http => "http"@,
    }
}

/// The textual name of an API, as the wire form writes it.
pub open spec fn spec_api_name_str(a: ApiName) -> Seq<char> {
    match a {
        ApiName::IoGetfile => "io_getfile"@,
        ApiName::MonitorV1Stat => "monitor_v1_stat"@,
        ApiName::UcV4Query => "uc_v4_query"@,
        ApiName::RangeReaderReadAt => "range_reader_read_at"@,
        ApiName::RangeReaderReadMultiRanges => "range_reader_read_multi_ranges"@,
        ApiName::RangeReaderExist => "range_reader_exist"@,
        ApiName::RangeReaderFileSize => "range_reader_file_size"@,
        ApiName::RangeReaderDownloadTo => "range_reader_download_to"@,
        ApiName::RangeReaderReadLastBytes => "range_reader_read_last_bytes"@,
    }
}

/// The JSON line of per-API call statistics.
pub open spec fn spec_ser_api(r: APICallsDotRecord) -> Seq<char> {
    "{\"type\":\""@ + spec_dot_type_str(r.dot_type) + "\",\"api_name\":\""@ + spec_api_name_str(
        r.api_name,
    ) + "\",\"success_count\":"@ + spec_dec_digits(r.success_count as int)
        + ",\"success_avg_elapsed_duration\":"@ + spec_dec_digits(
        r.success_avg_elapsed_duration as int,
    ) + ",\"failed_count\":"@ + spec_dec_digits(r.failed_count as int)
        + ",\"failed_avg_elapsed_duration\":"@ + spec_dec_digits(
        r.failed_avg_elapsed_duration as int,
    ) + "}"@
}

/// The JSON line of a punished count.
pub open spec fn spec_ser_punished(r: PunishedCountDotRecord) -> Seq<char> {
    "{\"punished_count\":"@ + spec_dec_digits(r.punished_count as int) + "}"@
}

/// The JSON line of a record.
pub open spec fn spec_ser_record(r: DotRecord) -> Seq<char> {
    match r {
        DotRecord::APICalls(a) => spec_ser_api(a),
        DotRecord::PunishedCount(p) => spec_ser_punished(p),
    }
}

/// The digit character of a value below ten, as a one-character token.
fn digit_str(d: u64) -> (r: &'static str)
    requires
        d < 10,
    ensures
        r@ == seq![spec_digit_char(d as int)],
{
    proof {
        reveal_strlit("0");
        reveal_strlit("1");
        reveal_strlit("2");
        reveal_strlit("3");
        reveal_strlit("4");
        reveal_strlit("5");
        reveal_strlit("6");
        reveal_strlit("7");
        reveal_strlit("8");
        reveal_strlit("9");
    }
    let r = if d == 0 {
        "0"
    } else if d == 1 {
        "1"
    } else if d == 2 {
        "2"
    } else if d == 3 {
        "3"
    } else if d == 4 {
        "4"
    } else if d == 5 {
        "5"
    } else if d == 6 {
        "6"
    } else if d == 7 {
        "7"
    } else if d == 8 {
        "8"
    } else {
        "9"
    };
    proof {
        assert(r@ =~= seq![spec_digit_char(d as int)]);
    }
    r
}

/// Renders a value in decimal.
pub fn u64_to_dec(n: u64) -> (r: String)
    ensures
        r@ == spec_dec_digits(n as int),
    decreases n,
{
    if n < 10 {
        let mut s = String::new();
        s.append(digit_str(n));
        proof {
            assert(s@ =~= seq![spec_digit_char(n as int)]);
        }
        s
    } else {
        let mut s = u64_to_dec(n / 10);
        s.append(digit_str(n % 10));
        proof {
            assert(s@ =~= spec_dec_digits((n / 10) as int).push(spec_digit_char((n % 10) as int)));
        }
        s
    }
}

/// Renders a wide value in decimal.
pub fn u128_to_dec(n: u128) -> (r: String)
    ensures
        r@ == spec_dec_digits(n as int),
    decreases n,
{
    if n < 10 {
        let mut s = String::new();
        s.append(digit_str((n % 10) as u64));
        proof {
            assert(s@ =~= seq![spec_digit_char(n as int)]);
        }
        s
    } else {
        let mut s = u128_to_dec(n / 10);
        s.append(digit_str((n % 10) as u64));
        proof {
            assert(s@ =~= spec_dec_digits((n / 10) as int).push(spec_digit_char((n % 10) as int)));
        }
        s
    }
}

/// Appends the origin name.
fn append_dot_type(out: &mut String, t: DotType)
    ensures
        final(out)@ == old(out)@ + spec_dot_type_str(t),
{
    match t {
        DotType::Sdk => out.append("sdk"),
        DotType::Http => out.append("http"),
    }
}

/// Appends the API name.
fn append_api_name(out: &mut String, a: ApiName)
    ensures
        final(out)@ == old(out)@ + spec_api_name_str(a),
{
    match a {
        ApiName::IoGetfile => out.append("io_getfile"),
        ApiName::MonitorV1Stat => out.append("monitor_v1_stat"),
        ApiName::UcV4Query => out.append("uc_v4_query"),
        ApiName::RangeReaderReadAt => out.append("range_reader_read_at"),
        ApiName::RangeReaderReadMultiRanges => out.append("range_reader_read_multi_ranges"),
        ApiName::RangeReaderExist => out.append("range_reader_exist"),
        ApiName::RangeReaderFileSize => out.append("range_reader_file_size"),
        ApiName::RangeReaderDownloadTo => out.append("range_reader_download_to"),
        ApiName::RangeReaderReadLastBytes => out.append("range_reader_read_last_bytes"),
    }
}

/// Renders one record as its JSON line (without the newline).
pub fn serialize_record(r: &DotRecord) -> (out: String)
    ensures
        out@ == spec_ser_record(*r),
{
    let mut out = String::new();
    match r {
        DotRecord::APICalls(a) => {
            out.append("{\"type\":\"");
            append_dot_type(&mut out, a.dot_type);
            out.append("\",\"api_name\":\"");
            append_api_name(&mut out, a.api_name);
            out.append("\",\"success_count\":");
            let d1 = u64_to_dec(a.success_count);
            out.append(d1.as_str());
            out.append(",\"success_avg_elapsed_duration\":");
            let d2 = u64_to_dec(a.success_avg_elapsed_duration);
            out.append(d2.as_str());
            out.append(",\"failed_count\":");
            let d3 = u64_to_dec(a.failed_count);
            out.append(d3.as_str());
            out.append(",\"failed_avg_elapsed_duration\":");
            let d4 = u64_to_dec(a.failed_avg_elapsed_duration);
            out.append(d4.as_str());
            out.append("}");
            proof {
                assert(out@ =~= spec_ser_api(*a));
            }
        },
        DotRecord::PunishedCount(p) => {
            out.append("{\"punished_count\":");
            let d1 = u64_to_dec(p.punished_count);
            out.append(d1.as_str());
            out.append("}");
            proof {
                assert(out@ =~= spec_ser_punished(*p));
            }
        },
    }
    out
}

/// Token names are told apart by their lengths alone.
proof fn lemma_api_name_str_inj(a: ApiName, b: ApiName)
    requires
        spec_api_name_str(a) == spec_api_name_str(b),
    ensures
        a == b,
{
    reveal_strlit("io_getfile");
    reveal_strlit("monitor_v1_stat");
    reveal_strlit("uc_v4_query");
    reveal_strlit("range_reader_read_at");
    reveal_strlit("range_reader_read_multi_ranges");
    reveal_strlit("range_reader_exist");
    reveal_strlit("range_reader_file_size");
    reveal_strlit("range_reader_download_to");
    reveal_strlit("range_reader_read_last_bytes");
    assert(spec_api_name_str(ApiName::IoGetfile).len() == 10);
    assert(spec_api_name_str(ApiName::MonitorV1Stat).len() == 15);
    assert(spec_api_name_str(ApiName::UcV4Query).len() == 11);
    assert(spec_api_name_str(ApiName::RangeReaderReadAt).len() == 20);
    assert(spec_api_name_str(ApiName::RangeReaderReadMultiRanges).len() == 30);
    assert(spec_api_name_str(ApiName::RangeReaderExist).len() == 18);
    assert(spec_api_name_str(ApiName::RangeReaderFileSize).len() == 22);
    assert(spec_api_name_str(ApiName::RangeReaderDownloadTo).len() == 24);
    assert(spec_api_name_str(ApiName::RangeReaderReadLastBytes).len() == 28);
}

/// The two origin names are told apart by their lengths.
proof fn lemma_dot_type_str_inj(a: DotType, b: DotType)
    requires
        spec_dot_type_str(a) == spec_dot_type_str(b),
    ensures
        a == b,
{
    reveal_strlit("sdk");
    reveal_strlit("http");
    assert(spec_dot_type_str(DotType::Sdk).len() == 3);
    assert(spec_dot_type_str(DotType::Http).len() == 4);
}

/// No quote stands inside an origin name.
proof fn lemma_dot_type_no_quote(t: DotType)
    ensures
        forall|k: int|
            0 <= k < spec_dot_type_str(t).len() ==> #[trigger] spec_dot_type_str(t)[k] != '"',
{
    reveal_strlit("sdk");
    reveal_strlit("http");
}

/// No quote stands inside an API name.
proof fn lemma_api_name_no_quote(a: ApiName)
    ensures
        forall|k: int|
            0 <= k < spec_api_name_str(a).len() ==> #[trigger] spec_api_name_str(a)[k] != '"',
{
    reveal_strlit("io_getfile");
    reveal_strlit("monitor_v1_stat");
    reveal_strlit("uc_v4_query");
    reveal_strlit("range_reader_read_at");
    reveal_strlit("range_reader_read_multi_ranges");
    reveal_strlit("range_reader_exist");
    reveal_strlit("range_reader_file_size");
    reveal_strlit("range_reader_download_to");
    reveal_strlit("range_reader_read_last_bytes");
}

/// A prefix of the string splits off as a subrange.
proof fn lemma_take_split(s: Seq<char>, i: int, j: int)
    requires
        0 <= i <= j <= s.len(),
    ensures
        s.take(j) =~= s.take(i) + s.subrange(i, j),
{
}

/// The first quote after a quote-free token pins the scan to the token's
/// end.
proof fn lemma_scan_pins(s: Seq<char>, i: int, q: int, tok: Seq<char>)
    requires
        0 <= i,
        i + tok.len() < s.len(),
        s.subrange(i, i + tok.len()) == tok,
        s[i + tok.len()] == '"',
        forall|k: int| 0 <= k < tok.len() ==> #[trigger] tok[k] != '"',
        i <= q < s.len(),
        s[q] == '"',
        forall|k: int| i <= k < q ==> s[k] != '"',
    ensures
        q == i + tok.len(),
        s.subrange(i, q) == tok,
{
    if q < i + tok.len() {
        assert(s.subrange(i, i + tok.len())[q - i] == s[q]);
        assert(tok[q - i] != '"');
    }
    if q > i + tok.len() {
        assert(s[i + tok.len()] != '"');
    }
    assert(s.subrange(i, q) =~= tok);
}

/// Whether the token ending at the quote position `q` is exactly `lit`.
fn check_tok(s: &str, i: usize, q: usize, lit: &str) -> (r: bool)
    ensures
        r == (i + lit@.len() == q && spec_lit_at(s@, i as int, lit@)),
{
    match match_lit(s, i, lit) {
        Option::Some(j) => j == q,
        Option::None => false,
    }
}

/// Positions of the parts of a rendered API-call record: each is the
/// running sum of the part lengths before it.
pub open spec fn sp_p2(rec: APICallsDotRecord) -> int {
    "{\"type\":\""@.len() + spec_dot_type_str(rec.dot_type).len() as int
}

pub open spec fn sp_p3(rec: APICallsDotRecord) -> int {
    sp_p2(rec) + "\",\"api_name\":\""@.len()
}

pub open spec fn sp_p4(rec: APICallsDotRecord) -> int {
    sp_p3(rec) + spec_api_name_str(rec.api_name).len()
}

pub open spec fn sp_p5(rec: APICallsDotRecord) -> int {
    sp_p4(rec) + "\",\"success_count\":"@.len()
}

pub open spec fn sp_p6(rec: APICallsDotRecord) -> int {
    sp_p5(rec) + spec_dec_digits(rec.success_count as int).len()
}

pub open spec fn sp_p7(rec: APICallsDotRecord) -> int {
    sp_p6(rec) + ",\"success_avg_elapsed_duration\":"@.len()
}

pub open spec fn sp_p8(rec: APICallsDotRecord) -> int {
    sp_p7(rec) + spec_dec_digits(rec.success_avg_elapsed_duration as int).len()
}

pub open spec fn sp_p9(rec: APICallsDotRecord) -> int {
    sp_p8(rec) + ",\"failed_count\":"@.len()
}

pub open spec fn sp_p10(rec: APICallsDotRecord) -> int {
    sp_p9(rec) + spec_dec_digits(rec.failed_count as int).len()
}

pub open spec fn sp_p11(rec: APICallsDotRecord) -> int {
    sp_p10(rec) + ",\"failed_avg_elapsed_duration\":"@.len()
}

pub open spec fn sp_p12(rec: APICallsDotRecord) -> int {
    sp_p11(rec) + spec_dec_digits(rec.failed_avg_elapsed_duration as int).len()
}

/// How the parts of a rendered API-call record stand in the string.
pub open spec fn spec_api_parts(s: Seq<char>, rec: APICallsDotRecord) -> bool {
    &&& spec_lit_at(s, 0, "{\"type\":\""@)
    &&& s.subrange("{\"type\":\""@.len() as int, sp_p2(rec)) == spec_dot_type_str(rec.dot_type)
    &&& sp_p2(rec) < s.len() && s[sp_p2(rec)] == '"'
    &&& spec_lit_at(s, sp_p2(rec), "\",\"api_name\":\""@)
    &&& s.subrange(sp_p3(rec), sp_p4(rec)) == spec_api_name_str(rec.api_name)
    &&& sp_p4(rec) < s.len() && s[sp_p4(rec)] == '"'
    &&& spec_lit_at(s, sp_p4(rec), "\",\"success_count\":"@)
    &&& spec_num_at(s, sp_p5(rec), rec.success_count as int)
    &&& spec_lit_at(s, sp_p6(rec), ",\"success_avg_elapsed_duration\":"@)
    &&& spec_num_at(s, sp_p7(rec), rec.success_avg_elapsed_duration as int)
    &&& spec_lit_at(s, sp_p8(rec), ",\"failed_count\":"@)
    &&& spec_num_at(s, sp_p9(rec), rec.failed_count as int)
    &&& spec_lit_at(s, sp_p10(rec), ",\"failed_avg_elapsed_duration\":"@)
    &&& spec_num_at(s, sp_p11(rec), rec.failed_avg_elapsed_duration as int)
    &&& spec_lit_at(s, sp_p12(rec), "}"@)
    &&& s.len() == sp_p12(rec) + 1
}

/// A rendered API-call record decomposes into its parts at the running
/// positions.
proof fn lemma_api_positions(s: Seq<char>, rec: APICallsDotRecord)
    requires
        s == spec_ser_api(rec),
    ensures
        spec_api_parts(s, rec),
{
    reveal_strlit("{\"type\":\"");
    reveal_strlit("\",\"api_name\":\"");
    reveal_strlit("\",\"success_count\":");
    reveal_strlit(",\"success_avg_elapsed_duration\":");
    reveal_strlit(",\"failed_count\":");
    reveal_strlit(",\"failed_avg_elapsed_duration\":");
    reveal_strlit("}");
    let p1 = "{\"type\":\""@.len() as int;
    let n1 = spec_dec_digits(rec.success_count as int);
    let n2 = spec_dec_digits(rec.success_avg_elapsed_duration as int);
    let n3 = spec_dec_digits(rec.failed_count as int);
    let n4 = spec_dec_digits(rec.failed_avg_elapsed_duration as int);
    assert(s.subrange(0, p1) =~= "{\"type\":\""@);
    assert(s.subrange(p1, sp_p2(rec)) =~= spec_dot_type_str(rec.dot_type));
    assert(s.subrange(sp_p2(rec), sp_p3(rec)) =~= "\",\"api_name\":\""@);
    assert(s.subrange(sp_p3(rec), sp_p4(rec)) =~= spec_api_name_str(rec.api_name));
    assert(s.subrange(sp_p4(rec), sp_p5(rec)) =~= "\",\"success_count\":"@);
    assert(s.subrange(sp_p5(rec), sp_p6(rec)) =~= n1);
    assert(s.subrange(sp_p6(rec), sp_p7(rec)) =~= ",\"success_avg_elapsed_duration\":"@);
    assert(s.subrange(sp_p7(rec), sp_p8(rec)) =~= n2);
    assert(s.subrange(sp_p8(rec), sp_p9(rec)) =~= ",\"failed_count\":"@);
    assert(s.subrange(sp_p9(rec), sp_p10(rec)) =~= n3);
    assert(s.subrange(sp_p10(rec), sp_p11(rec)) =~= ",\"failed_avg_elapsed_duration\":"@);
    assert(s.subrange(sp_p11(rec), sp_p12(rec)) =~= n4);
    assert(s.subrange(sp_p12(rec), sp_p12(rec) + 1) =~= "}"@);
    assert(s[sp_p2(rec)] == '"') by {
        assert(s.subrange(sp_p2(rec), sp_p3(rec))[0] == s[sp_p2(rec)]);
    }
    assert(s[sp_p4(rec)] == '"') by {
        assert(s.subrange(sp_p4(rec), sp_p5(rec))[0] == s[sp_p4(rec)]);
    }
    assert(s[sp_p6(rec)] == ',' && !spec_is_digit(',')) by {
        assert(s.subrange(sp_p6(rec), sp_p7(rec))[0] == s[sp_p6(rec)]);
    }
    assert(s[sp_p8(rec)] == ',' && !spec_is_digit(',')) by {
        assert(s.subrange(sp_p8(rec), sp_p9(rec))[0] == s[sp_p8(rec)]);
    }
    assert(s[sp_p10(rec)] == ',' && !spec_is_digit(',')) by {
        assert(s.subrange(sp_p10(rec), sp_p11(rec))[0] == s[sp_p10(rec)]);
    }
    assert(s[sp_p12(rec)] == '}' && !spec_is_digit('}')) by {
        assert(s.subrange(sp_p12(rec), sp_p12(rec) + 1)[0] == s[sp_p12(rec)]);
    }
}

/// Reassembles a record's rendering from the pieces the parser matched.
proof fn lemma_assemble_api(
    s: Seq<char>,
    rec: APICallsDotRecord,
    i1: int,
    q1: int,
    i2: int,
    q2: int,
    i3: int,
    m1: int,
    i4: int,
    m2: int,
    i5: int,
    m3: int,
    i6: int,
    m4: int,
    i7: int,
)
    requires
        0 <= i1 <= q1 <= i2 <= q2 <= i3 <= m1 <= i4 <= m2 <= i5 <= m3 <= i6 <= m4 <= i7
            <= s.len(),
        s.subrange(0, i1) == "{\"type\":\""@,
        s.subrange(i1, q1) == spec_dot_type_str(rec.dot_type),
        s.subrange(q1, i2) == "\",\"api_name\":\""@,
        s.subrange(i2, q2) == spec_api_name_str(rec.api_name),
        s.subrange(q2, i3) == "\",\"success_count\":"@,
        s.subrange(i3, m1) == spec_dec_digits(rec.success_count as int),
        s.subrange(m1, i4) == ",\"success_avg_elapsed_duration\":"@,
        s.subrange(i4, m2) == spec_dec_digits(rec.success_avg_elapsed_duration as int),
        s.subrange(m2, i5) == ",\"failed_count\":"@,
        s.subrange(i5, m3) == spec_dec_digits(rec.failed_count as int),
        s.subrange(m3, i6) == ",\"failed_avg_elapsed_duration\":"@,
        s.subrange(i6, m4) == spec_dec_digits(rec.failed_avg_elapsed_duration as int),
        s.subrange(m4, i7) == "}"@,
        i7 == s.len(),
    ensures
        s == spec_ser_api(rec),
{
    assert(s =~= spec_ser_api(rec)) by {
        assert forall|k: int| 0 <= k < s.len() implies s[k] == spec_ser_api(rec)[k] by {
            if k < i1 {
                assert(s.subrange(0, i1)[k] == s[k]);
            } else if k < q1 {
                assert(s.subrange(i1, q1)[k - i1] == s[k]);
            } else if k < i2 {
                assert(s.subrange(q1, i2)[k - q1] == s[k]);
            } else if k < q2 {
                assert(s.subrange(i2, q2)[k - i2] == s[k]);
            } else if k < i3 {
                assert(s.subrange(q2, i3)[k - q2] == s[k]);
            } else if k < m1 {
                assert(s.subrange(i3, m1)[k - i3] == s[k]);
            } else if k < i4 {
                assert(s.subrange(m1, i4)[k - m1] == s[k]);
            } else if k < m2 {
                assert(s.subrange(i4, m2)[k - i4] == s[k]);
            } else if k < i5 {
                assert(s.subrange(m2, i5)[k - m2] == s[k]);
            } else if k < m3 {
                assert(s.subrange(i5, m3)[k - i5] == s[k]);
            } else if k < i6 {
                assert(s.subrange(m3, i6)[k - m3] == s[k]);
            } else if k < m4 {
                assert(s.subrange(i6, m4)[k - i6] == s[k]);
            } else {
                assert(s.subrange(m4, i7)[k - m4] == s[k]);
            }
        }
    }
}

/// Whether the token `tok` stands at position `i`, ended by a quote.
pub open spec fn spec_tok_at(s: Seq<char>, i: int, tok: Seq<char>) -> bool {
    &&& i + tok.len() < s.len()
    &&& s.subrange(i, i + tok.len()) == tok
    &&& s[i + tok.len()] == '"'
}

/// Parses the origin token at position `i`, up to the closing quote.
fn parse_dt_token(s: &str, i: usize) -> (r: Option<(DotType, usize)>)
    ensures
        r matches Some(p) ==> i <= p.1 < s@.len() && s@.subrange(i as int, p.1 as int)
            == spec_dot_type_str(p.0) && s@[p.1 as int] == '"',
        forall|t: DotType|
            spec_tok_at(s@, i as int, spec_dot_type_str(t)) ==> r == Some(
                (t, (i + spec_dot_type_str(t).len()) as usize),
            ),
{
    let q = match scan_quote(s, i) {
        Option::Some(q) => q,
        Option::None => {
            proof {
                assert forall|t: DotType| !spec_tok_at(s@, i as int, spec_dot_type_str(t)) by {
                    if spec_tok_at(s@, i as int, spec_dot_type_str(t)) {
                        assert(s@[i + spec_dot_type_str(t).len()] == '"');
                    }
                }
            }
            return None;
        },
    };
    proof {
        assert forall|t: DotType|
            spec_tok_at(s@, i as int, spec_dot_type_str(t)) implies q == i + spec_dot_type_str(
            t,
        ).len() && s@.subrange(i as int, q as int) == spec_dot_type_str(t) by {
            lemma_dot_type_no_quote(t);
            lemma_scan_pins(s@, i as int, q as int, spec_dot_type_str(t));
        }
    }
    let has_sdk = check_tok(s, i, q, "sdk");
    let has_http = check_tok(s, i, q, "http");
    let r = if has_sdk {
        Some((DotType::Sdk, q))
    } else if has_http {
        Some((DotType::Http, q))
    } else {
        None
    };
    proof {
        if r is Some {
            let t = r->Some_0.0;
            assert(s@.subrange(i as int, q as int) == spec_dot_type_str(t)) by {
                match t {
                    DotType::Sdk => {
                        assert(s@.subrange(i as int, q as int) =~= "sdk"@);
                    },
                    DotType::Http => {
                        assert(s@.subrange(i as int, q as int) =~= "http"@);
                    },
                }
            }
        }
        assert forall|t: DotType|
            spec_tok_at(s@, i as int, spec_dot_type_str(t)) implies r == Some(
            (t, (i + spec_dot_type_str(t).len()) as usize),
        ) by {
            reveal_strlit("sdk");
            reveal_strlit("http");
            match t {
                DotType::Sdk => {
                    assert(spec_lit_at(s@, i as int, "sdk"@));
                },
                DotType::Http => {
                    assert(spec_lit_at(s@, i as int, "http"@));
                },
            }
        }
    }
    r
}

/// Parses the API-name token at position `i`, up to the closing quote.
#[verifier::rlimit(100)]
#[verifier::spinoff_prover]
fn parse_api_token(s: &str, i: usize) -> (r: Option<(ApiName, usize)>)
    ensures
        r matches Some(p) ==> i <= p.1 < s@.len() && s@.subrange(i as int, p.1 as int)
            == spec_api_name_str(p.0) && s@[p.1 as int] == '"',
        forall|a: ApiName|
            spec_tok_at(s@, i as int, spec_api_name_str(a)) ==> r == Some(
                (a, (i + spec_api_name_str(a).len()) as usize),
            ),
{
    let q = match scan_quote(s, i) {
        Option::Some(q) => q,
        Option::None => {
            proof {
                assert forall|a: ApiName| !spec_tok_at(s@, i as int, spec_api_name_str(a)) by {
                    if spec_tok_at(s@, i as int, spec_api_name_str(a)) {
                        assert(s@[i + spec_api_name_str(a).len()] == '"');
                    }
                }
            }
            return None;
        },
    };
    proof {
        assert forall|a: ApiName|
            spec_tok_at(s@, i as int, spec_api_name_str(a)) implies q == i + spec_api_name_str(
            a,
        ).len() && s@.subrange(i as int, q as int) == spec_api_name_str(a) by {
            lemma_api_name_no_quote(a);
            lemma_scan_pins(s@, i as int, q as int, spec_api_name_str(a));
        }
    }
    let t1 = check_tok(s, i, q, "io_getfile");
    let t2 = check_tok(s, i, q, "monitor_v1_stat");
    let t3 = check_tok(s, i, q, "uc_v4_query");
    let t4 = check_tok(s, i, q, "range_reader_read_at");
    let t5 = check_tok(s, i, q, "range_reader_read_multi_ranges");
    let t6 = check_tok(s, i, q, "range_reader_exist");
    let t7 = check_tok(s, i, q, "range_reader_file_size");
    let t8 = check_tok(s, i, q, "range_reader_download_to");
    let t9 = check_tok(s, i, q, "range_reader_read_last_bytes");
    let r = if t1 {
        Some((ApiName::IoGetfile, q))
    } else if t2 {
        Some((ApiName::MonitorV1Stat, q))
    } else if t3 {
        Some((ApiName::UcV4Query, q))
    } else if t4 {
        Some((ApiName::RangeReaderReadAt, q))
    } else if t5 {
        Some((ApiName::RangeReaderReadMultiRanges, q))
    } else if t6 {
        Some((ApiName::RangeReaderExist, q))
    } else if t7 {
        Some((ApiName::RangeReaderFileSize, q))
    } else if t8 {
        Some((ApiName::RangeReaderDownloadTo, q))
    } else if t9 {
        Some((ApiName::RangeReaderReadLastBytes, q))
    } else {
        None
    };
    proof {
        if r is Some {
            let a = r->Some_0.0;
            assert(s@.subrange(i as int, q as int) == spec_api_name_str(a)) by {
                match a {
                    ApiName::IoGetfile => {
                        assert(s@.subrange(i as int, q as int) =~= "io_getfile"@);
                    },
                    ApiName::MonitorV1Stat => {
                        assert(s@.subrange(i as int, q as int) =~= "monitor_v1_stat"@);
                    },
                    ApiName::UcV4Query => {
                        assert(s@.subrange(i as int, q as int) =~= "uc_v4_query"@);
                    },
                    ApiName::RangeReaderReadAt => {
                        assert(s@.subrange(i as int, q as int) =~= "range_reader_read_at"@);
                    },
                    ApiName::RangeReaderReadMultiRanges => {
                        assert(s@.subrange(i as int, q as int)
                            =~= "range_reader_read_multi_ranges"@);
                    },
                    ApiName::RangeReaderExist => {
                        assert(s@.subrange(i as int, q as int) =~= "range_reader_exist"@);
                    },
                    ApiName::RangeReaderFileSize => {
                        assert(s@.subrange(i as int, q as int) =~= "range_reader_file_size"@);
                    },
                    ApiName::RangeReaderDownloadTo => {
                        assert(s@.subrange(i as int, q as int) =~= "range_reader_download_to"@);
                    },
                    ApiName::RangeReaderReadLastBytes => {
                        assert(s@.subrange(i as int, q as int) =~= "range_reader_read_last_bytes"@);
                    },
                }
            }
        }
        assert forall|a: ApiName|
            spec_tok_at(s@, i as int, spec_api_name_str(a)) implies r == Some(
            (a, (i + spec_api_name_str(a).len()) as usize),
        ) by {
            reveal_strlit("io_getfile");
            reveal_strlit("monitor_v1_stat");
            reveal_strlit("uc_v4_query");
            reveal_strlit("range_reader_read_at");
            reveal_strlit("range_reader_read_multi_ranges");
            reveal_strlit("range_reader_exist");
            reveal_strlit("range_reader_file_size");
            reveal_strlit("range_reader_download_to");
            reveal_strlit("range_reader_read_last_bytes");
            match a {
                ApiName::IoGetfile => {
                    assert(spec_lit_at(s@, i as int, "io_getfile"@));
                },
                ApiName::MonitorV1Stat => {
                    assert(spec_lit_at(s@, i as int, "monitor_v1_stat"@));
                },
                ApiName::UcV4Query => {
                    assert(spec_lit_at(s@, i as int, "uc_v4_query"@));
                },
                ApiName::RangeReaderReadAt => {
                    assert(spec_lit_at(s@, i as int, "range_reader_read_at"@));
                },
                ApiName::RangeReaderReadMultiRanges => {
                    assert(spec_lit_at(s@, i as int, "range_reader_read_multi_ranges"@));
                },
                ApiName::RangeReaderExist => {
                    assert(spec_lit_at(s@, i as int, "range_reader_exist"@));
                },
                ApiName::RangeReaderFileSize => {
                    assert(spec_lit_at(s@, i as int, "range_reader_file_size"@));
                },
                ApiName::RangeReaderDownloadTo => {
                    assert(spec_lit_at(s@, i as int, "range_reader_download_to"@));
                },
                ApiName::RangeReaderReadLastBytes => {
                    assert(spec_lit_at(s@, i as int, "range_reader_read_last_bytes"@));
                },
            }
        }
    }
    r
}

/// Parses a decimal immediately followed by a fixed token.
fn parse_num_lit(s: &str, i: usize, lit: &str) -> (r: Option<(u64, usize)>)
    ensures
        r matches Some(p) ==> ({
            let m = i + spec_dec_digits(p.0 as int).len();
            &&& i <= p.1 <= s@.len()
            &&& m <= p.1
            &&& s@.subrange(i as int, m as int) == spec_dec_digits(p.0 as int)
            &&& s@.subrange(m as int, p.1 as int) == lit@
            &&& p.1 == m + lit@.len()
        }),
        forall|v: u64|
            (spec_num_at(s@, i as int, v as int) && spec_lit_at(
                s@,
                i + spec_dec_digits(v as int).len(),
                lit@,
            )) ==> r == Some(
                (v, (i + spec_dec_digits(v as int).len() + lit@.len()) as usize),
            ),
{
    let (v, m) = match parse_u64(s, i) {
        Option::Some(pr) => pr,
        Option::None => {
            return None;
        },
    };
    let j = match match_lit(s, m, lit) {
        Option::Some(j) => j,
        Option::None => {
            proof {
                assert forall|w: u64|
                    !(spec_num_at(s@, i as int, w as int) && spec_lit_at(
                        s@,
                        i + spec_dec_digits(w as int).len(),
                        lit@,
                    )) by {
                    if spec_num_at(s@, i as int, w as int) {
                        assert(m == i + spec_dec_digits(w as int).len());
                    }
                }
            }
            return None;
        },
    };
    proof {
        assert(s@.subrange(m as int, j as int) =~= lit@);
    }
    Some((v, j))
}

/// Parses the per-API call-statistics line.  A refusal means no record
/// renders to the input; a result is exactly the record that does.
#[verifier::rlimit(100)]
#[verifier::spinoff_prover]
fn parse_api_calls(s: &str) -> (r: Option<APICallsDotRecord>)
    ensures
        r matches Some(rec) ==> s@ == spec_ser_api(rec),
        forall|rec: APICallsDotRecord| s@ == spec_ser_api(rec) ==> r == Some(rec),
{
    proof {
        assert forall|rec: APICallsDotRecord| s@ == spec_ser_api(rec) implies spec_api_parts(
            s@,
            rec,
        ) by {
            lemma_api_positions(s@, rec);
        }
    }
    let i1 = match match_lit(s, 0, "{\"type\":\"") {
        Option::Some(j) => j,
        Option::None => {
            return None;
        },
    };
    let (dt, q1) = match parse_dt_token(s, i1) {
        Option::Some(p) => p,
        Option::None => {
            proof {
                assert forall|rec: APICallsDotRecord| s@ != spec_ser_api(rec) by {
                    if s@ == spec_ser_api(rec) {
                        assert(spec_tok_at(s@, i1 as int, spec_dot_type_str(rec.dot_type)));
                    }
                }
            }
            return None;
        },
    };
    proof {
        assert forall|rec: APICallsDotRecord| s@ == spec_ser_api(rec) implies dt == rec.dot_type
            && q1 == sp_p2(rec) by {
            assert(spec_tok_at(s@, i1 as int, spec_dot_type_str(rec.dot_type)));
        }
    }
    let i2 = match match_lit(s, q1, "\",\"api_name\":\"") {
        Option::Some(j) => j,
        Option::None => {
            proof {
                assert forall|rec: APICallsDotRecord| s@ != spec_ser_api(rec) by {
                    if s@ == spec_ser_api(rec) {
                        assert(spec_lit_at(s@, sp_p2(rec), "\",\"api_name\":\""@));
                    }
                }
            }
            return None;
        },
    };
    let (api, q2) = match parse_api_token(s, i2) {
        Option::Some(p) => p,
        Option::None => {
            proof {
                assert forall|rec: APICallsDotRecord| s@ != spec_ser_api(rec) by {
                    if s@ == spec_ser_api(rec) {
                        assert(i2 == sp_p3(rec));
                        assert(spec_tok_at(s@, i2 as int, spec_api_name_str(rec.api_name)));
                    }
                }
            }
            return None;
        },
    };
    proof {
        assert forall|rec: APICallsDotRecord| s@ == spec_ser_api(rec) implies api == rec.api_name
            && q2 == sp_p4(rec) by {
            assert(i2 == sp_p3(rec));
            assert(spec_tok_at(s@, i2 as int, spec_api_name_str(rec.api_name)));
        }
    }
    let i3 = match match_lit(s, q2, "\",\"success_count\":") {
        Option::Some(j) => j,
        Option::None => {
            proof {
                assert forall|rec: APICallsDotRecord| s@ != spec_ser_api(rec) by {
                    if s@ == spec_ser_api(rec) {
                        assert(spec_lit_at(s@, sp_p4(rec), "\",\"success_count\":"@));
                    }
                }
            }
            return None;
        },
    };
    let (v1, i4) = match parse_num_lit(s, i3, ",\"success_avg_elapsed_duration\":") {
        Option::Some(p) => p,
        Option::None => {
            proof {
                assert forall|rec: APICallsDotRecord| s@ != spec_ser_api(rec) by {
                    if s@ == spec_ser_api(rec) {
                        assert(i3 == sp_p5(rec));
                        assert(spec_num_at(s@, sp_p5(rec), rec.success_count as int));
                        assert(spec_lit_at(s@, sp_p6(rec), ",\"success_avg_elapsed_duration\":"@));
                    }
                }
            }
            return None;
        },
    };
    proof {
        assert forall|rec: APICallsDotRecord| s@ == spec_ser_api(rec) implies v1
            == rec.success_count && i4 == sp_p7(rec) by {
            assert(i3 == sp_p5(rec));
            assert(spec_num_at(s@, sp_p5(rec), rec.success_count as int));
            assert(spec_lit_at(s@, sp_p6(rec), ",\"success_avg_elapsed_duration\":"@));
        }
    }
    let (v2, i5) = match parse_num_lit(s, i4, ",\"failed_count\":") {
        Option::Some(p) => p,
        Option::None => {
            proof {
                assert forall|rec: APICallsDotRecord| s@ != spec_ser_api(rec) by {
                    if s@ == spec_ser_api(rec) {
                        assert(spec_num_at(s@, sp_p7(rec),
                            rec.success_avg_elapsed_duration as int));
                        assert(spec_lit_at(s@, sp_p8(rec), ",\"failed_count\":"@));
                    }
                }
            }
            return None;
        },
    };
    proof {
        assert forall|rec: APICallsDotRecord| s@ == spec_ser_api(rec) implies v2
            == rec.success_avg_elapsed_duration && i5 == sp_p9(rec) by {
            assert(spec_num_at(s@, sp_p7(rec), rec.success_avg_elapsed_duration as int));
            assert(spec_lit_at(s@, sp_p8(rec), ",\"failed_count\":"@));
        }
    }
    let (v3, i6) = match parse_num_lit(s, i5, ",\"failed_avg_elapsed_duration\":") {
        Option::Some(p) => p,
        Option::None => {
            proof {
                assert forall|rec: APICallsDotRecord| s@ != spec_ser_api(rec) by {
                    if s@ == spec_ser_api(rec) {
                        assert(spec_num_at(s@, sp_p9(rec), rec.failed_count as int));
                        assert(spec_lit_at(s@, sp_p10(rec), ",\"failed_avg_elapsed_duration\":"@));
                    }
                }
            }
            return None;
        },
    };
    proof {
        assert forall|rec: APICallsDotRecord| s@ == spec_ser_api(rec) implies v3
            == rec.failed_count && i6 == sp_p11(rec) by {
            assert(spec_num_at(s@, sp_p9(rec), rec.failed_count as int));
            assert(spec_lit_at(s@, sp_p10(rec), ",\"failed_avg_elapsed_duration\":"@));
        }
    }
    let (v4, i7) = match parse_num_lit(s, i6, "}") {
        Option::Some(p) => p,
        Option::None => {
            proof {
                assert forall|rec: APICallsDotRecord| s@ != spec_ser_api(rec) by {
                    if s@ == spec_ser_api(rec) {
                        assert(spec_num_at(s@, sp_p11(rec),
                            rec.failed_avg_elapsed_duration as int));
                        assert(spec_lit_at(s@, sp_p12(rec), "}"@));
                    }
                }
            }
            return None;
        },
    };
    proof {
        assert forall|rec: APICallsDotRecord| s@ == spec_ser_api(rec) implies v4
            == rec.failed_avg_elapsed_duration && i7 == sp_p12(rec) + 1 by {
            assert(spec_num_at(s@, sp_p11(rec), rec.failed_avg_elapsed_duration as int));
            assert(spec_lit_at(s@, sp_p12(rec), "}"@));
        }
    }
    if i7 != s.unicode_len() {
        proof {
            assert forall|rec: APICallsDotRecord| s@ != spec_ser_api(rec) by {
                if s@ == spec_ser_api(rec) {
                    assert(s@.len() == sp_p12(rec) + 1);
                }
            }
        }
        return None;
    }
    let rec = APICallsDotRecord {
        dot_type: dt,
        api_name: api,
        success_count: v1,
        success_avg_elapsed_duration: v2,
        failed_count: v3,
        failed_avg_elapsed_duration: v4,
    };
    proof {
        assert(s@.subrange(0, i1 as int) =~= "{\"type\":\""@);
        lemma_assemble_api(s@, rec, i1 as int, q1 as int, i2 as int, q2 as int, i3 as int,
            i3 + spec_dec_digits(v1 as int).len(), i4 as int,
            i4 + spec_dec_digits(v2 as int).len(), i5 as int,
            i5 + spec_dec_digits(v3 as int).len(), i6 as int,
            i6 + spec_dec_digits(v4 as int).len(), i7 as int);
    }
    Some(rec)
}

/// Parses the punished-count line.  A refusal means no record renders to
/// the input; a result is exactly the record that does.
#[verifier::rlimit(60)]
fn parse_punished(s: &str) -> (r: Option<PunishedCountDotRecord>)
    ensures
        r matches Some(rec) ==> s@ == spec_ser_punished(rec),
        forall|rec: PunishedCountDotRecord| s@ == spec_ser_punished(rec) ==> r == Some(rec),
{
    proof {
        assert forall|rec: PunishedCountDotRecord| s@ == spec_ser_punished(rec) implies {
            let n = spec_dec_digits(rec.punished_count as int);
            let p1 = "{\"punished_count\":"@.len() as int;
            &&& spec_lit_at(s@, 0, "{\"punished_count\":"@)
            &&& spec_num_at(s@, p1, rec.punished_count as int)
            &&& spec_lit_at(s@, p1 + n.len(), "}"@)
            &&& s@.len() == p1 + n.len() + 1
        } by {
            reveal_strlit("{\"punished_count\":");
            reveal_strlit("}");
            let n = spec_dec_digits(rec.punished_count as int);
            let p1 = "{\"punished_count\":"@.len() as int;
            assert(s@.subrange(0, p1) =~= "{\"punished_count\":"@);
            assert(s@.subrange(p1, p1 + n.len()) =~= n);
            assert(s@.subrange(p1 + n.len(), p1 + n.len() + 1) =~= "}"@);
            assert(s@[p1 + n.len()] == '}');
            assert(!spec_is_digit('}'));
        }
    }
    let i1 = match match_lit(s, 0, "{\"punished_count\":") {
        Option::Some(j) => j,
        Option::None => {
            return None;
        },
    };
    let (v1, i2) = match parse_u64(s, i1) {
        Option::Some(pr) => pr,
        Option::None => {
            return None;
        },
    };
    let i3 = match match_lit(s, i2, "}") {
        Option::Some(j) => j,
        Option::None => {
            return None;
        },
    };
    if i3 != s.unicode_len() {
        return None;
    }
    let rec = PunishedCountDotRecord { punished_count: v1 };
    proof {
        assert(s@ == spec_ser_punished(rec)) by {
            assert(s@.take(i1 as int) =~= "{\"punished_count\":"@);
            lemma_take_split(s@, i1 as int, i2 as int);
            lemma_take_split(s@, i2 as int, i3 as int);
            assert(s@.subrange(i2 as int, i3 as int) == "}"@);
            assert(s@.take(i3 as int) =~= s@);
            assert(s@ =~= spec_ser_punished(rec));
        }
    }
    Some(rec)
}

/// Parses one JSON line as a record: the call-statistics shape is tried
/// first, the punished-count shape second.  A refusal means no record
/// renders to the input; a result is exactly the record that does, so
/// parsing is a left inverse of `serialize_record`.
pub fn parse_record(s: &str) -> (r: Option<DotRecord>)
    ensures
        r matches Some(rec) ==> s@ == spec_ser_record(rec),
        forall|rec: DotRecord| s@ == spec_ser_record(rec) ==> r == Some(rec),
{
    match parse_api_calls(s) {
        Option::Some(a) => {
            proof {
                assert forall|rec: DotRecord| s@ == spec_ser_record(rec) implies Some(
                    DotRecord::APICalls(a),
                ) == Some(rec) by {
                    match rec {
                        DotRecord::APICalls(_) => {},
                        DotRecord::PunishedCount(p) => {
                            reveal_strlit("{\"type\":\"");
                            reveal_strlit("{\"punished_count\":");
                            assert(spec_ser_api(a)[2] == '"' && spec_ser_api(a)[3] == 't') by {
                                assert(spec_ser_api(a).subrange(0, 9) =~= "{\"type\":\""@);
                                assert(spec_ser_api(a).subrange(0, 9)[3] == spec_ser_api(a)[3]);
                            }
                            assert(spec_ser_punished(p)[3] == 'p') by {
                                assert(spec_ser_punished(p).subrange(0, 18)
                                    =~= "{\"punished_count\":"@);
                                assert(spec_ser_punished(p).subrange(0, 18)[3] == spec_ser_punished(
                                    p,
                                )[3]);
                            }
                        },
                    }
                }
            }
            Some(DotRecord::APICalls(a))
        },
        Option::None => {
            match parse_punished(s) {
                Option::Some(p) => Some(DotRecord::PunishedCount(p)),
                Option::None => None,
            }
        },
    }
}

} // verus!
