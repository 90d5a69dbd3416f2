//! Reading the regulatory filing index: the fixed-width line format, the
//! header date field, and the partitioning of the company list.
//!
//! The index file itself arrives over the network and sits on disk; what
//! stands here is everything that can be said of its text alone: how one
//! line splits into columns, how a numeric id is read, and how the company
//! list is cut into partitions with an id-to-partition index.

use vstd::prelude::*;

use std::collections::HashMap;

use crate::company::Company;
use crate::company::ProcessedCompany;
use vstd::arithmetic::div_mod::lemma_fundamental_div_mod;
use vstd::arithmetic::div_mod::lemma_mod_bound;
use vstd::arithmetic::mul::lemma_mul_inequality;

verus! {

broadcast use vstd::std_specs::hash::group_hash_axioms;

// ------------------------------------------------------------------------
// digits

/// A decimal digit.
pub open spec fn is_digit(c: char) -> bool {
    '0' <= c && c <= '9'
}

/// The value of one digit character.
pub open spec fn digit_val(c: char) -> int {
    c as int - 48
}

/// Every character of the text is a decimal digit.
pub open spec fn all_digits(s: Seq<char>) -> bool {
    forall|i: int| 0 <= i < s.len() ==> is_digit(#[trigger] s[i])
}

/// The number the digit text denotes, most significant digit first.
pub open spec fn digits_value(s: Seq<char>) -> int
    decreases s.len(),
{
    if s.len() == 0 {
        0
    } else {
        digits_value(s.drop_last()) * 10 + digit_val(s.last())
    }
}

proof fn lemma_digits_take_succ(s: Seq<char>, i: int)
    requires
        0 <= i < s.len(),
    ensures
        digits_value(s.take(i + 1)) == digits_value(s.take(i)) * 10 + digit_val(s[i]),
{
    assert(s.take(i + 1).drop_last() =~= s.take(i));
    assert(s.take(i + 1).last() == s[i]);
}

proof fn lemma_digits_value_nonneg(s: Seq<char>)
    requires
        all_digits(s),
    ensures
        digits_value(s) >= 0,
    decreases s.len(),
{
    if s.len() > 0 {
        assert(all_digits(s.drop_last())) by {
            assert forall|i: int| 0 <= i < s.drop_last().len() implies is_digit(
                #[trigger] s.drop_last()[i],
            ) by {
                assert(s.drop_last()[i] == s[i]);
            }
        }
        lemma_digits_value_nonneg(s.drop_last());
        assert(is_digit(s.last()));
    }
}

/// A longer digit prefix denotes at least as large a number.
proof fn lemma_digits_value_grows(s: Seq<char>, i: int)
    requires
        all_digits(s),
        0 <= i <= s.len(),
    ensures
        digits_value(s) >= digits_value(s.take(i)),
    decreases s.len() - i,
{
    if i == s.len() {
        assert(s.take(i) =~= s);
    } else {
        lemma_digits_take_succ(s, i);
        assert(all_digits(s.take(i))) by {
            assert forall|m: int| 0 <= m < s.take(i).len() implies is_digit(
                #[trigger] s.take(i)[m],
            ) by {
                assert(s.take(i)[m] == s[m]);
            }
        }
        lemma_digits_value_nonneg(s.take(i));
        assert(is_digit(s[i]));
        assert(digits_value(s.take(i + 1)) >= digits_value(s.take(i)));
        lemma_digits_value_grows(s, i + 1);
    }
}

/// Read a regulatory id from digit text. Yields the denoted number exactly
/// when the text is nonempty, all digits, and the number fits an `i32`.
pub fn parse_cik(s: &str) -> (r: Option<i32>)
    ensures
        match r {
            Some(v) => s@.len() > 0 && all_digits(s@) && v == digits_value(s@),
            None => s@.len() == 0 || !all_digits(s@) || digits_value(s@) > i32::MAX,
        },
{
    let n = s.unicode_len();
    if n == 0 {
        return None;
    }
    let mut acc: i32 = 0;
    let mut i: usize = 0;
    while i < n
        invariant
            i <= n,
            n == s@.len(),
            all_digits(s@.take(i as int)),
            0 <= acc,
            acc == digits_value(s@.take(i as int)),
        decreases n - i,
    {
        let c = s.get_char(i);
        if !(c >= '0' && c <= '9') {
            proof {
                assert(!is_digit(s@[i as int]));
            }
            return None;
        }
        let d = (c as u8 - 48) as i32;
        proof {
            lemma_digits_take_succ(s@, i as int);
            assert(all_digits(s@.take(i + 1))) by {
                assert forall|m: int| 0 <= m < s@.take(i + 1).len() implies is_digit(
                    #[trigger] s@.take(i + 1)[m],
                ) by {
                    assert(s@.take(i + 1)[m] == s@[m]);
                    if m < i as int {
                        assert(s@.take(i as int)[m] == s@[m]);
                    }
                }
            }
        }
        if acc > 214748364 || (acc == 214748364 && d > 7) {
            proof {
                assert(digits_value(s@.take(i + 1)) > i32::MAX);
                if all_digits(s@) && digits_value(s@) <= i32::MAX {
                    lemma_digits_value_grows(s@, i + 1);
                }
            }
            return None;
        }
        acc = acc * 10 + d;
        i += 1;
    }
    proof {
        assert(s@.take(n as int) =~= s@);
    }
    Some(acc)
}

// ------------------------------------------------------------------------
// trimming

/// A blank filler character of the fixed-width format.
pub open spec fn is_space(c: char) -> bool {
    c == ' ' || c == '\t'
}

/// The text without its leading blanks.
pub open spec fn trim_front(s: Seq<char>) -> Seq<char>
    decreases s.len(),
{
    if s.len() > 0 && is_space(s[0]) {
        trim_front(s.skip(1))
    } else {
        s
    }
}

/// The text without its trailing blanks.
pub open spec fn trim_back(s: Seq<char>) -> Seq<char>
    decreases s.len(),
{
    if s.len() > 0 && is_space(s.last()) {
        trim_back(s.drop_last())
    } else {
        s
    }
}

/// The text without leading and trailing blanks.
pub open spec fn trim_spec(s: Seq<char>) -> Seq<char> {
    trim_back(trim_front(s))
}

/// Whether the character at position `i` is a blank.
fn char_at_is_space(s: &str, i: usize) -> (b: bool)
    requires
        i < s@.len(),
    ensures
        b == is_space(s@[i as int]),
{
    let c = s.get_char(i);
    c == ' ' || c == '\t'
}

/// The text without leading and trailing blanks.
pub fn trim_spaces<'a>(s: &'a str) -> (r: &'a str)
    ensures
        r@ == trim_spec(s@),
{
    let n = s.unicode_len();
    proof {
        assert(s@.skip(0) =~= s@);
    }
    let mut lo: usize = 0;
    while lo < n && char_at_is_space(s, lo)
        invariant
            lo <= n,
            n == s@.len(),
            trim_front(s@.skip(lo as int)) == trim_front(s@),
        decreases n - lo,
    {
        proof {
            assert(s@.skip(lo as int).len() > 0);
            assert(s@.skip(lo as int)[0] == s@[lo as int]);
            assert(s@.skip(lo as int).skip(1) =~= s@.skip(lo + 1));
        }
        lo += 1;
    }
    proof {
        assert(s@.skip(0) =~= s@);
        if lo < n {
            assert(s@.skip(lo as int)[0] == s@[lo as int]);
        }
        assert(trim_front(s@) == s@.skip(lo as int));
        assert(s@.subrange(lo as int, n as int) =~= s@.skip(lo as int));
    }
    let mut hi: usize = n;
    while hi > lo && char_at_is_space(s, hi - 1)
        invariant
            lo <= hi <= n,
            n == s@.len(),
            trim_front(s@) == s@.skip(lo as int),
            trim_back(s@.subrange(lo as int, hi as int)) == trim_spec(s@),
        decreases hi,
    {
        proof {
            let sub = s@.subrange(lo as int, hi as int);
            assert(sub.len() > 0);
            assert(sub.last() == s@[hi - 1]);
            assert(sub.drop_last() =~= s@.subrange(lo as int, hi - 1));
        }
        hi -= 1;
    }
    proof {
        let sub = s@.subrange(lo as int, hi as int);
        if hi > lo {
            assert(sub.last() == s@[hi - 1]);
        }
        assert(trim_back(sub) == sub);
    }
    s.substring_char(lo, hi)
}

// ------------------------------------------------------------------------
// the fixed-width line format

/// Split one line of the filing index into its fixed-width columns: the
/// company name, the form numbers, the regulatory id, the date, and the
/// file name, each trimmed of filler blanks. Yields a record exactly when
/// the line has all five columns and the id column reads as a number.
pub fn parse_idx_line(line: &str) -> (r: Option<Company>)
    ensures
        match r {
            Some(c) => {
                &&& line@.len() >= 98
                &&& c.name@ == trim_spec(line@.subrange(0, 62))
                &&& c.form_numbers@ == trim_spec(line@.subrange(62, 74))
                &&& (match c.cik {
                    Some(v) => {
                        &&& trim_spec(line@.subrange(74, 86)).len() > 0
                        &&& all_digits(trim_spec(line@.subrange(74, 86)))
                        &&& v == digits_value(trim_spec(line@.subrange(74, 86)))
                    },
                    None => false,
                })
                &&& c.date@ == trim_spec(line@.subrange(86, 98))
                &&& c.file_name@ == trim_spec(line@.skip(98))
            },
            None => line@.len() < 98 || trim_spec(line@.subrange(74, 86)).len() == 0
                || !all_digits(trim_spec(line@.subrange(74, 86))) || digits_value(
                trim_spec(line@.subrange(74, 86)),
            ) > i32::MAX,
        },
{
    let n = line.unicode_len();
    if n < 98 {
        return None;
    }
    let name = trim_spaces(line.substring_char(0, 62));
    let form_numbers = trim_spaces(line.substring_char(62, 74));
    let cik_text = trim_spaces(line.substring_char(74, 86));
    let date = trim_spaces(line.substring_char(86, 98));
    let file_name = trim_spaces(line.substring_char(98, n));
    proof {
        assert(line@.subrange(98, n as int) =~= line@.skip(98));
    }
    match parse_cik(cik_text) {
        Some(v) => Some(
            Company::new(
                name.to_owned(),
                Some(v),
                form_numbers.to_owned(),
                date.to_owned(),
                file_name.to_owned(),
            ),
        ),
        None => None,
    }
}

// ------------------------------------------------------------------------
// the header date field

/// Position `k` carries the header's separator: a colon and a blank.
pub open spec fn sep_at(s: Seq<char>, k: int) -> bool {
    0 <= k && k + 2 <= s.len() && s[k] == ':' && s[k + 1] == ' '
}

/// The text after the first colon-blank separator of a header line,
/// trimmed: the date field of the index file header.
pub fn header_date_field(line: &str) -> (r: Option<String>)
    ensures
        match r {
            Some(t) => exists|k: int|
                #[trigger] sep_at(line@, k) && (forall|m: int| 0 <= m < k ==> !sep_at(line@, m))
                    && t@ == trim_spec(line@.skip(k + 2)),
            None => forall|k: int| !sep_at(line@, k),
        },
{
    let n = line.unicode_len();
    if n < 2 {
        return None;
    }
    let mut k: usize = 0;
    while k <= n - 2
        invariant
            2 <= n,
            n == line@.len(),
            k <= n - 1,
            forall|m: int| 0 <= m < k ==> !sep_at(line@, m),
        decreases n - k,
    {
        let c0 = line.get_char(k);
        let c1 = line.get_char(k + 1);
        if c0 == ':' && c1 == ' ' {
            let rest = line.substring_char(k + 2, n);
            let t = trim_spaces(rest);
            proof {
                assert(sep_at(line@, k as int));
                assert(line@.subrange(k + 2, n as int) =~= line@.skip(k + 2));
            }
            return Some(t.to_owned());
        }
        k += 1;
    }
    None
}

/// Whether the index file on hand was already fetched today, comparing the
/// file's header date with today's date, each as year, month and day.
pub fn idx_file_is_current(
    file_year: i32,
    file_month: u32,
    file_day: u32,
    today_year: i32,
    today_month: u32,
    today_day: u32,
) -> (b: bool)
    ensures
        b == (file_year == today_year && file_month == today_month && file_day == today_day),
{
    file_year == today_year && file_month == today_month && file_day == today_day
}

// ------------------------------------------------------------------------
// processing and partitioning

/// Turn raw index records into processed company records: the regulatory id
/// carries over, the name becomes the one alias, and no enrichment facts
/// exist yet.
pub fn process_raw_data(companies: Vec<Company>) -> (r: Vec<ProcessedCompany>)
    ensures
        r@.len() == companies@.len(),
        forall|i: int|
            0 <= i < r@.len() ==> {
                let pc = #[trigger] r@[i];
                &&& pc.cik == companies@[i].cik
                &&& pc.company_aliases@.len() == 1
                &&& pc.company_aliases@[0]@ == companies@[i].name@
                &&& pc.websites is None
                &&& pc.career_page is None
                &&& pc.tags is None
                &&& pc.has_captcha is None
            },
{
    let mut out: Vec<ProcessedCompany> = Vec::new();
    let mut i: usize = 0;
    while i < companies.len()
        invariant
            i <= companies@.len(),
            out@.len() == i,
            forall|m: int|
                0 <= m < i ==> {
                    let pc = #[trigger] out@[m];
                    &&& pc.cik == companies@[m].cik
                    &&& pc.company_aliases@.len() == 1
                    &&& pc.company_aliases@[0]@ == companies@[m].name@
                    &&& pc.websites is None
                    &&& pc.career_page is None
                    &&& pc.tags is None
                    &&& pc.has_captcha is None
                },
        decreases companies@.len() - i,
    {
        let mut aliases: Vec<String> = Vec::new();
        aliases.push(companies[i].name.clone());
        out.push(ProcessedCompany::new(companies[i].cik, aliases, None, None, None, None));
        i += 1;
    }
    out
}

/// The records hold one whose regulatory id is `k`.
pub open spec fn cik_in(cs: Seq<Company>, k: i32) -> bool {
    exists|i: int| 0 <= i < cs.len() && cs[i].cik == Some(k)
}

proof fn lemma_cik_in_take_succ(cs: Seq<Company>, i: int)
    requires
        0 <= i < cs.len(),
    ensures
        forall|k: i32|
            #[trigger] cik_in(cs.take(i + 1), k) <==> cik_in(cs.take(i), k) || cs[i].cik == Some(
                k,
            ),
{
    assert(cs.take(i + 1) =~= cs.take(i).push(cs[i]));
    assert forall|k: i32| #[trigger]
        cik_in(cs.take(i + 1), k) implies cik_in(cs.take(i), k) || cs[i].cik == Some(k) by {
        let m = choose|m: int| 0 <= m < cs.take(i + 1).len() && #[trigger] cs.take(i + 1)[m].cik
            == Some(k);
        if m < i {
            assert(cs.take(i)[m].cik == Some(k));
        }
    }
    assert forall|k: i32|
        cik_in(cs.take(i), k) || cs[i].cik == Some(k) implies #[trigger] cik_in(
        cs.take(i + 1),
        k,
    ) by {
        if cik_in(cs.take(i), k) {
            let m = choose|m: int| 0 <= m < cs.take(i).len() && #[trigger] cs.take(i)[m].cik
                == Some(k);
            assert(cs.take(i + 1)[m].cik == Some(k));
        } else {
            assert(cs.take(i + 1)[i].cik == Some(k));
        }
    }
}

/// Record, for every company of the partition that has a regulatory id,
/// that its id lives in partition `current_index`. Ids already mapped keep
/// their entry unless this partition holds them too.
pub fn add_partition_to_index(
    companies: &Vec<Company>,
    current_index: usize,
    index_map: &mut HashMap<i32, usize>,
)
    ensures
        forall|k: i32|
            #[trigger] final(index_map)@.contains_key(k) <==> old(index_map)@.contains_key(k)
                || cik_in(companies@, k),
        forall|k: i32| cik_in(companies@, k) ==> #[trigger] final(index_map)@[k] == current_index,
        forall|k: i32|
            #[trigger] final(index_map)@.contains_key(k) && !cik_in(companies@, k)
                ==> final(index_map)@[k] == old(index_map)@[k],
{
    let mut i: usize = 0;
    while i < companies.len()
        invariant
            i <= companies@.len(),
            forall|k: i32|
                #[trigger] index_map@.contains_key(k) <==> old(index_map)@.contains_key(k)
                    || cik_in(companies@.take(i as int), k),
            forall|k: i32|
                cik_in(companies@.take(i as int), k) ==> #[trigger] index_map@[k]
                    == current_index,
            forall|k: i32|
                #[trigger] index_map@.contains_key(k) && !cik_in(companies@.take(i as int), k)
                    ==> index_map@[k] == old(index_map)@[k],
        decreases companies@.len() - i,
    {
        proof {
            lemma_cik_in_take_succ(companies@, i as int);
        }
        match companies[i].cik {
            Some(k) => {
                index_map.insert(k, current_index);
                proof {
                    assert(companies@[i as int].cik == Some(k));
                }
            },
            None => {},
        }
        i += 1;
    }
    proof {
        assert(companies@.take(companies@.len() as int) =~= companies@);
    }
}

/// Copy one record.
fn clone_company(c: &Company) -> (r: Company)
    ensures
        r == *c,
{
    Company {
        name: c.name.clone(),
        cik: c.cik,
        form_numbers: c.form_numbers.clone(),
        date: c.date.clone(),
        file_name: c.file_name.clone(),
    }
}

/// Where partition `p` of `len` records starts.
pub open spec fn part_lo(len: int, partitions: int, p: int) -> int {
    p * (len / partitions)
}

/// Where partition `p` of `len` records ends: the last partition takes the
/// remainder.
pub open spec fn part_hi(len: int, partitions: int, p: int) -> int {
    if p == partitions - 1 {
        len
    } else {
        (p + 1) * (len / partitions)
    }
}

/// Cut the company list into `partitions` consecutive chunks — the last one
/// takes the remainder — and build the index from each regulatory id to a
/// partition that holds it. Persisting the chunks is the caller's separate
/// step.
pub fn separate_and_save_companies(companies: Vec<Company>, partitions: usize) -> (r: (
    Vec<Vec<Company>>,
    HashMap<i32, usize>,
))
    requires
        1 <= partitions,
    ensures
        r.0@.len() == partitions,
        forall|p: int|
            0 <= p < partitions ==> (#[trigger] r.0@[p])@ =~= companies@.subrange(
                part_lo(companies@.len() as int, partitions as int, p),
                part_hi(companies@.len() as int, partitions as int, p),
            ),
        forall|k: i32| #[trigger] r.1@.contains_key(k) <==> cik_in(companies@, k),
        forall|k: i32|
            #[trigger] r.1@.contains_key(k) ==> exists|p: int|
                0 <= p < partitions && r.1@[k] == p && cik_in(#[trigger] r.0@[p]@, k),
{
    let ghost len = companies@.len() as int;
    let ghost parts = partitions as int;
    let total = companies.len();
    let chunk = total / partitions;
    proof {
        lemma_fundamental_div_mod(len, parts);
        lemma_mod_bound(len, parts);
        assert(parts * (len / parts) <= len);
    }
    let mut out: Vec<Vec<Company>> = Vec::new();
    let mut index: HashMap<i32, usize> = HashMap::new();
    let mut p: usize = 0;
    while p < partitions
        invariant
            p <= partitions,
            len == companies@.len() as int,
            parts == partitions as int,
            0 <= len <= usize::MAX,
            chunk == len / parts,
            parts * (len / parts) <= len,
            out@.len() == p,
            forall|q: int|
                0 <= q < p ==> (#[trigger] out@[q])@ =~= companies@.subrange(
                    part_lo(len, parts, q),
                    part_hi(len, parts, q),
                ),
            forall|k: i32|
                #[trigger] index@.contains_key(k) <==> cik_in(
                    companies@.take(if p == partitions { len } else { p * chunk }),
                    k,
                ),
            forall|k: i32|
                #[trigger] index@.contains_key(k) ==> exists|q: int|
                    0 <= q < p && index@[k] == q && cik_in(#[trigger] out@[q]@, k),
        decreases partitions - p,
    {
        proof {
            lemma_mul_inequality(p as int, parts, chunk as int);
            lemma_mul_inequality(p as int + 1, parts, chunk as int);
        }
        let start = p * chunk;
        let end = if p == partitions - 1 {
            companies.len()
        } else {
            (p + 1) * chunk
        };
        proof {
            assert(start as int == part_lo(len, parts, p as int));
            assert(end as int == part_hi(len, parts, p as int));
            assert(start <= end) by {
                assert((p as int + 1) * chunk as int == p as int * chunk as int + chunk as int)
                    by (nonlinear_arith);
            }
        }
        let mut partition: Vec<Company> = Vec::new();
        let mut j: usize = start;
        while j < end
            invariant
                start <= j <= end,
                end <= companies@.len(),
                partition@.len() == j - start,
                forall|m: int|
                    0 <= m < partition@.len() ==> #[trigger] partition@[m] == companies@[start
                        + m],
            decreases end - j,
        {
            partition.push(clone_company(&companies[j]));
            j += 1;
        }
        proof {
            assert(partition@ =~= companies@.subrange(start as int, end as int));
        }
        let ghost out_before = out@;
        let ghost index_before = index@;
        add_partition_to_index(&partition, p, &mut index);
        let ghost index_now = index@;
        out.push(partition);
        proof {
            assert forall|q: int| 0 <= q < p implies out@[q] == out_before[q] by {}
        }
        proof {
            // the region covered so far grows by exactly this partition
            let prev_hi = p as int * chunk as int;
            let new_hi = if p + 1 == partitions {
                len
            } else {
                (p as int + 1) * chunk as int
            };
            assert(companies@.take(new_hi) =~= companies@.take(prev_hi) + companies@.subrange(
                start as int,
                end as int,
            ));
            assert forall|k: i32| #[trigger]
                index_now.contains_key(k) <==> cik_in(companies@.take(new_hi), k) by {
                if cik_in(companies@.take(new_hi), k) {
                    let m = choose|m: int|
                        0 <= m < companies@.take(new_hi).len() && #[trigger] companies@.take(
                            new_hi,
                        )[m].cik == Some(k);
                    if m < prev_hi {
                        assert(companies@.take(prev_hi)[m].cik == Some(k));
                    } else {
                        assert(partition@[m - prev_hi].cik == Some(k));
                        assert(cik_in(partition@, k));
                    }
                }
                if index_now.contains_key(k) {
                    if cik_in(companies@.take(prev_hi), k) {
                        let m = choose|m: int|
                            0 <= m < companies@.take(prev_hi).len() && #[trigger] companies@.take(
                                prev_hi,
                            )[m].cik == Some(k);
                        assert(companies@.take(new_hi)[m].cik == Some(k));
                    } else if cik_in(partition@, k) {
                        let m = choose|m: int|
                            0 <= m < partition@.len() && #[trigger] partition@[m].cik == Some(k);
                        assert(companies@.take(new_hi)[prev_hi + m].cik == Some(k));
                    }
                }
            }
            assert forall|k: i32| #[trigger] index_now.contains_key(k) implies exists|q: int|
                0 <= q < p + 1 && index_now[k] == q && cik_in(#[trigger] out@[q]@, k) by {
                if cik_in(partition@, k) {
                    assert(out@[p as int]@ == partition@);
                    assert(index_now[k] == p as int);
                } else {
                    let q = choose|q: int|
                        0 <= q < p && index_before[k] == q && cik_in(
                            #[trigger] out_before[q]@,
                            k,
                        );
                    assert(out@[q] == out_before[q]);
                    assert(index_now[k] == index_before[k]);
                }
            }
        }
        p += 1;
    }
    proof {
        assert(companies@.take(len) =~= companies@);
    }
    (out, index)
}

} // verus!
