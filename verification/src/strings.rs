//! Verified text helpers: ASCII case folding and substring containment,
//! used by the alias maintenance filter and the search-query builder.

use vstd::prelude::*;

verus! {

/// ASCII case folding of one character: letters A through Z fold to their
/// lowercase forms; every other character, non-ASCII letters included,
/// stays as it is.
pub open spec fn lower_char(c: char) -> char {
    if 'A' <= c && c <= 'Z' {
        (((c as u8) + 32) as char)
    } else {
        c
    }
}

/// ASCII case folding of a text, character by character. Only the letters
/// A through Z fold: the folding is narrower than full Unicode case
/// mapping, which has no short specification.
pub open spec fn lower(s: Seq<char>) -> Seq<char> {
    s.map_values(|c: char| lower_char(c))
}

/// The needle occurs in the haystack starting at position `k`.
pub open spec fn occurs_at(h: Seq<char>, n: Seq<char>, k: int) -> bool {
    0 <= k && k + n.len() <= h.len() && h.subrange(k, k + n.len() as int) == n
}

/// The needle occurs somewhere in the haystack.
pub open spec fn seq_contains(h: Seq<char>, n: Seq<char>) -> bool {
    exists|k: int| occurs_at(h, n, k)
}

/// Case-insensitive containment: the folded needle occurs in the folded
/// haystack. Case is ignored for ASCII letters only (see `lower`).
pub open spec fn contains_ci(h: Seq<char>, n: Seq<char>) -> bool {
    seq_contains(lower(h), lower(n))
}

/// Fold one character.
pub fn lower_char_exec(c: char) -> (r: char)
    ensures
        r == lower_char(c),
{
    if c >= 'A' && c <= 'Z' {
        ((c as u8) + 32) as char
    } else {
        c
    }
}

/// The folded characters of a text, as a vector.
pub fn lower_chars_of(s: &str) -> (r: Vec<char>)
    ensures
        r@ == lower(s@),
{
    let n = s.unicode_len();
    let mut out: Vec<char> = Vec::new();
    let mut i: usize = 0;
    while i < n
        invariant
            i <= n,
            n == s@.len(),
            out@ =~= lower(s@.take(i as int)),
        decreases n - i,
    {
        let c = s.get_char(i);
        out.push(lower_char_exec(c));
        proof {
            assert(s@.take(i + 1) =~= s@.take(i as int).push(s@[i as int]));
            assert(lower(s@.take(i + 1)) =~= lower(s@.take(i as int)).push(
                lower_char(s@[i as int]),
            ));
        }
        i += 1;
    }
    proof {
        assert(s@.take(n as int) =~= s@);
    }
    out
}

/// Whether the needle matches the haystack at position `k`.
fn chars_match_at(h: &Vec<char>, n: &Vec<char>, k: usize) -> (b: bool)
    requires
        k + n@.len() <= h@.len(),
    ensures
        b == occurs_at(h@, n@, k as int),
{
    let hlen = h.len();
    assert(h@.len() == hlen);
    let mut j: usize = 0;
    while j < n.len()
        invariant
            j <= n@.len(),
            k + n@.len() <= h@.len(),
            h@.len() <= usize::MAX,
            forall|m: int| 0 <= m < j ==> h@[k + m] == n@[m],
        decreases n@.len() - j,
    {
        if h[k + j] != n[j] {
            proof {
                if occurs_at(h@, n@, k as int) {
                    let sub = h@.subrange(k as int, k as int + n@.len() as int);
                    assert(sub[j as int] == n@[j as int]);
                }
            }
            return false;
        }
        j += 1;
    }
    proof {
        assert(h@.subrange(k as int, k as int + n@.len() as int) =~= n@);
    }
    true
}

/// Whether the needle occurs anywhere in the haystack.
pub fn chars_contain(h: &Vec<char>, n: &Vec<char>) -> (b: bool)
    ensures
        b == seq_contains(h@, n@),
{
    if n.len() > h.len() {
        proof {
            if seq_contains(h@, n@) {
                let k = choose|k: int| occurs_at(h@, n@, k);
            }
        }
        return false;
    }
    if n.len() == 0 {
        proof {
            assert(h@.subrange(0, 0) =~= n@);
            assert(occurs_at(h@, n@, 0));
        }
        return true;
    }
    let last = h.len() - n.len();
    let mut k: usize = 0;
    while k <= last
        invariant
            k <= last + 1,
            last == h@.len() - n@.len(),
            1 <= n@.len() <= h@.len(),
            h@.len() <= usize::MAX,
            forall|m: int| 0 <= m < k ==> !occurs_at(h@, n@, m),
        decreases last + 1 - k,
    {
        if chars_match_at(h, n, k) {
            return true;
        }
        k += 1;
    }
    proof {
        if seq_contains(h@, n@) {
            let m = choose|m: int| occurs_at(h@, n@, m);
        }
    }
    false
}

/// Case-insensitive containment of one text in another.
pub fn str_contains_ci(h: &str, n: &str) -> (b: bool)
    ensures
        b == contains_ci(h@, n@),
{
    let hv = lower_chars_of(h);
    let nv = lower_chars_of(n);
    chars_contain(&hv, &nv)
}

/// The alphabet the folding maps into, for carving one-letter slices out of.
fn lowercase_alphabet() -> (r: &'static str)
    ensures
        r@.len() == 26,
        r.is_ascii(),
        forall|c: char| 'A' <= c && c <= 'Z' ==> r@[c as int - 65] == lower_char(c),
{
    let a = "abcdefghijklmnopqrstuvwxyz";
    proof {
        reveal_strlit("abcdefghijklmnopqrstuvwxyz");
        assert forall|c: char| 'A' <= c && c <= 'Z' implies a@[c as int - 65] == lower_char(c) by {
            let k = c as int - 65;
            assert(0 <= k < 26);
        }
    }
    a
}

/// The text with every character folded, as a string.
pub fn lower_str(s: &str) -> (r: String)
    ensures
        r@ == lower(s@),
{
    let alphabet = lowercase_alphabet();
    let n = s.unicode_len();
    let mut out = String::new();
    let mut i: usize = 0;
    while i < n
        invariant
            i <= n,
            n == s@.len(),
            out@ =~= lower(s@.take(i as int)),
            alphabet@.len() == 26,
            vstd::string::is_ascii(alphabet),
            forall|c: char| 'A' <= c && c <= 'Z' ==> alphabet@[c as int - 65] == lower_char(c),
        decreases n - i,
    {
        let c = s.get_char(i);
        if c >= 'A' && c <= 'Z' {
            let k = (c as u8 - 65u8) as usize;
            let piece = alphabet.substring_ascii(k, k + 1);
            out.append(piece);
            proof {
                assert(piece@ =~= seq![lower_char(c)]);
            }
        } else {
            let piece = s.substring_char(i, i + 1);
            out.append(piece);
            proof {
                assert(piece@ =~= seq![c]);
                assert(lower_char(c) == c);
            }
        }
        proof {
            assert(s@.take(i + 1) =~= s@.take(i as int).push(s@[i as int]));
            assert(lower(s@.take(i + 1)) =~= lower(s@.take(i as int)).push(
                lower_char(s@[i as int]),
            ));
            assert(out@ =~= lower(s@.take(i + 1)));
        }
        i += 1;
    }
    proof {
        assert(s@.take(n as int) =~= s@);
    }
    out
}

} // verus!
