//! The discovery worker: turn one undiscovered company into a discovered
//! one, or decide that it should be removed.
//!
//! A cycle picks a company with no website facts, builds a search query from
//! one of its aliases, and — once the external search has run — writes the
//! outcome back: results become website facts (the first also the career
//! page), a terminal response-shape failure deletes the company, and any
//! other failure leaves the store untouched so a later cycle can retry.

use vstd::prelude::*;

use crate::serp::GoogleSerpService;
use crate::serp::SerpServiceError;
use crate::serp::is_terminal_failure;
use crate::store::CompanyDataStore;
use crate::store::delete_post;
use crate::strings::lower;
use crate::strings::lower_str;

verus! {

/// What a discovery cycle can report besides a search failure.
#[derive(Clone, Copy, Debug, PartialEq, Eq, Structural)]
pub enum DiscoveryError {
    /// The picked company has no alias to search for.
    MissingAlias(i32),
    /// The entry point has no implementation.
    NotImplemented,
}

// ------------------------------------------------------------------------
// the search query

/// A word separator within a company name.
pub open spec fn is_blank(c: char) -> bool {
    c == ' ' || c == '\t'
}

/// A word without its trailing periods: "inc." reads as "inc".
pub open spec fn word_core(w: Seq<char>) -> Seq<char>
    decreases w.len(),
{
    if w.len() > 0 && w.last() == '.' {
        word_core(w.drop_last())
    } else {
        w
    }
}

/// The legal-entity designators the query builder strips, matched as whole
/// words (ignoring trailing periods) of the folded name.
pub open spec fn is_designator(w: Seq<char>) -> bool {
    ||| word_core(w) == "inc"@
    ||| word_core(w) == "corp"@
    ||| word_core(w) == "llc"@
    ||| word_core(w) == "ltd"@
    ||| word_core(w) == "group"@
    ||| word_core(w) == "lp"@
    ||| word_core(w) == "co"@
    ||| word_core(w) == "company"@
    ||| word_core(w) == "bank"@
}

/// The length of the word at the front of the text: its maximal run of
/// non-separator characters.
pub open spec fn word_len(s: Seq<char>) -> nat
    decreases s.len(),
{
    if s.len() > 0 && !is_blank(s[0]) {
        (1 + word_len(s.skip(1))) as nat
    } else {
        0
    }
}

proof fn lemma_word_len_le(s: Seq<char>)
    ensures
        word_len(s) <= s.len(),
    decreases s.len(),
{
    if s.len() > 0 && !is_blank(s[0]) {
        lemma_word_len_le(s.skip(1));
    }
}

/// A word of length `m` stands at the front of the text: `m` non-separator
/// characters up to the end or a separator.
proof fn lemma_word_len_eq(t: Seq<char>, m: int)
    requires
        0 <= m <= t.len(),
        forall|k: int| 0 <= k < m ==> !is_blank(t[k]),
        m == t.len() || is_blank(t[m]),
    ensures
        word_len(t) == m,
    decreases m,
{
    if m == 0 {
    } else {
        assert(!is_blank(t[0]));
        assert forall|k: int| 0 <= k < m - 1 implies !is_blank(t.skip(1)[k]) by {
            assert(t.skip(1)[k] == t[k + 1]);
        }
        if m - 1 < t.skip(1).len() {
            assert(t.skip(1)[m - 1] == t[m]);
        }
        lemma_word_len_eq(t.skip(1), m - 1);
    }
}

/// The words of the text that are not designators, in order.
pub open spec fn kept_words(s: Seq<char>) -> Seq<Seq<char>>
    decreases s.len()
        via kept_words_decreases
{
    if s.len() == 0 {
        Seq::empty()
    } else if is_blank(s[0]) {
        kept_words(s.skip(1))
    } else {
        let w = s.take(word_len(s) as int);
        let rest = kept_words(s.skip(word_len(s) as int));
        if is_designator(w) {
            rest
        } else {
            seq![w] + rest
        }
    }
}

#[via_fn]
proof fn kept_words_decreases(s: Seq<char>) {
    if s.len() > 0 && !is_blank(s[0]) {
        lemma_word_len_le(s);
    }
}

/// Each word followed by one separating blank.
pub open spec fn emit_words(ws: Seq<Seq<char>>) -> Seq<char>
    decreases ws.len(),
{
    if ws.len() == 0 {
        Seq::<char>::empty()
    } else {
        ws[0] + seq![' '] + emit_words(ws.skip(1))
    }
}

/// The query built for a company name: the name folded, its legal-entity
/// designator words dropped, each remaining word followed by one blank, and
/// the discovery keyword appended.
pub open spec fn query_spec(q: Seq<char>) -> Seq<char> {
    emit_words(kept_words(lower(q))) + "careers"@
}

/// Whether the character at position `i` is a word separator.
fn char_at_is_blank(s: &str, i: usize) -> (b: bool)
    requires
        i < s@.len(),
    ensures
        b == is_blank(s@[i as int]),
{
    let c = s.get_char(i);
    c == ' ' || c == '\t'
}

/// The end of the word starting at position `i`.
fn word_end(s: &str, i: usize, n: usize) -> (j: usize)
    requires
        i < n,
        n == s@.len(),
        !is_blank(s@[i as int]),
    ensures
        i < j <= n,
        word_len(s@.skip(i as int)) == j - i,
{
    let mut j: usize = i + 1;
    while j < n && !char_at_is_blank(s, j)
        invariant
            i < j <= n,
            n == s@.len(),
            !is_blank(s@[i as int]),
            forall|k: int| i <= k < j ==> !is_blank(s@[k]),
        decreases n - j,
    {
        j += 1;
    }
    proof {
        let t = s@.skip(i as int);
        assert forall|k: int| 0 <= k < j - i implies !is_blank(t[k]) by {
            assert(t[k] == s@[i + k]);
        }
        if (j - i) < t.len() {
            assert(t[j - i] == s@[j as int]);
        }
        lemma_word_len_eq(t, j - i);
    }
    j
}

/// Whether the character at position `k` is a period.
fn char_at_is_dot(s: &str, k: usize) -> (b: bool)
    requires
        k < s@.len(),
    ensures
        b == (s@[k as int] == '.'),
{
    s.get_char(k) == '.'
}

/// The end of the word's core: the word between `i` and `j` without its
/// trailing periods.
fn word_core_end(s: &str, i: usize, j: usize) -> (jj: usize)
    requires
        i <= j <= s@.len(),
    ensures
        i <= jj <= j,
        word_core(s@.subrange(i as int, j as int)) == s@.subrange(i as int, jj as int),
{
    let mut jj: usize = j;
    while jj > i && char_at_is_dot(s, jj - 1)
        invariant
            i <= jj <= j,
            j <= s@.len(),
            word_core(s@.subrange(i as int, jj as int)) == word_core(
                s@.subrange(i as int, j as int),
            ),
        decreases jj,
    {
        proof {
            let sub = s@.subrange(i as int, jj as int);
            assert(sub.len() > 0);
            assert(sub.last() == s@[jj - 1]);
            assert(sub.drop_last() =~= s@.subrange(i as int, jj - 1));
        }
        jj -= 1;
    }
    proof {
        let sub = s@.subrange(i as int, jj as int);
        if jj > i {
            assert(sub.last() == s@[jj - 1]);
        }
        assert(word_core(sub) == sub);
    }
    jj
}

/// Whether the text between `i` and `j` equals the literal.
fn range_eq_lit(s: &str, lo: usize, hi: usize, lit: &str) -> (b: bool)
    requires
        lo <= hi <= s@.len(),
    ensures
        b == (s@.subrange(lo as int, hi as int) == lit@),
{
    let m = lit.unicode_len();
    if hi - lo != m {
        proof {
            if s@.subrange(lo as int, hi as int) == lit@ {
                assert(s@.subrange(lo as int, hi as int).len() == lit@.len());
            }
        }
        return false;
    }
    let mut k: usize = 0;
    while k < m
        invariant
            k <= m,
            m == lit@.len(),
            lo <= hi <= s@.len(),
            hi - lo == m,
            forall|d: int| 0 <= d < k ==> s@[lo + d] == lit@[d],
        decreases m - k,
    {
        if s.get_char(lo + k) != lit.get_char(k) {
            proof {
                if s@.subrange(lo as int, hi as int) == lit@ {
                    let sub = s@.subrange(lo as int, hi as int);
                    assert(sub[k as int] == lit@[k as int]);
                }
            }
            return false;
        }
        k += 1;
    }
    proof {
        assert(s@.subrange(lo as int, hi as int) =~= lit@);
    }
    true
}

/// Whether the word between `i` and `j` is a legal-entity designator.
fn is_designator_range(s: &str, i: usize, j: usize) -> (b: bool)
    requires
        i <= j <= s@.len(),
    ensures
        b == is_designator(s@.subrange(i as int, j as int)),
{
    let jj = word_core_end(s, i, j);
    range_eq_lit(s, i, jj, "inc") || range_eq_lit(s, i, jj, "corp") || range_eq_lit(
        s,
        i,
        jj,
        "llc",
    ) || range_eq_lit(s, i, jj, "ltd") || range_eq_lit(s, i, jj, "group") || range_eq_lit(
        s,
        i,
        jj,
        "lp",
    ) || range_eq_lit(s, i, jj, "co") || range_eq_lit(s, i, jj, "company") || range_eq_lit(
        s,
        i,
        jj,
        "bank",
    )
}

/// Build the search query for a company name: fold the case, drop the
/// legal-entity designator words, and append the discovery keyword.
pub fn construct_query(query: &str) -> (r: String)
    ensures
        r@ == query_spec(query@),
{
    let folded = lower_str(query);
    let s = folded.as_str();
    let n = s.unicode_len();
    let mut out = String::new();
    proof {
        assert(s@.skip(0) =~= s@);
        assert(Seq::<char>::empty() + emit_words(kept_words(s@)) =~= emit_words(kept_words(s@)));
    }
    let mut i: usize = 0;
    while i < n
        invariant
            i <= n,
            n == s@.len(),
            out@ + emit_words(kept_words(s@.skip(i as int))) == emit_words(kept_words(s@)),
        decreases n - i,
    {
        let ghost rest = s@.skip(i as int);
        if char_at_is_blank(s, i) {
            proof {
                assert(rest[0] == s@[i as int]);
                assert(rest.skip(1) =~= s@.skip(i + 1));
            }
            i += 1;
        } else {
            let j = word_end(s, i, n);
            let ghost w = s@.subrange(i as int, j as int);
            proof {
                assert(rest[0] == s@[i as int]);
                assert(rest.take((j - i) as int) =~= w);
                assert(rest.skip((j - i) as int) =~= s@.skip(j as int));
            }
            if is_designator_range(s, i, j) {
                proof {
                    assert(kept_words(rest) == kept_words(s@.skip(j as int)));
                }
            } else {
                let ghost out_before = out@;
                let piece = s.substring_char(i, j);
                out.append(piece);
                out.append(" ");
                proof {
                    reveal_strlit(" ");
                    assert(piece@ =~= w);
                    assert(" "@ =~= seq![' ']);
                    let ks = kept_words(s@.skip(j as int));
                    assert(kept_words(rest) == seq![w] + ks);
                    assert((seq![w] + ks)[0] == w);
                    assert((seq![w] + ks).skip(1) =~= ks);
                    assert(emit_words(seq![w] + ks) == w + seq![' '] + emit_words(ks));
                    assert(out@ =~= out_before + w + seq![' ']);
                    assert(out@ + emit_words(ks) =~= out_before + emit_words(seq![w] + ks));
                }
            }
            i = j;
        }
    }
    proof {
        assert(s@.skip(n as int) =~= Seq::<char>::empty());
        assert(emit_words(kept_words(s@.skip(n as int))) =~= Seq::<char>::empty());
        assert(out@ + emit_words(kept_words(s@.skip(n as int))) =~= out@);
    }
    out.append("careers");
    out
}

/// The list of results holds one whose url is `u`.
pub open spec fn results_have_url(rs: Seq<(String, String)>, u: Seq<char>) -> bool {
    exists|i: int| 0 <= i < rs.len() && rs[i].1@ == u
}

proof fn lemma_results_take_succ(rs: Seq<(String, String)>, i: int)
    requires
        0 <= i < rs.len(),
    ensures
        forall|u: Seq<char>|
            #[trigger] results_have_url(rs.take(i + 1), u) <==> results_have_url(rs.take(i), u)
                || u == rs[i].1@,
{
    assert(rs.take(i + 1) =~= rs.take(i).push(rs[i]));
    assert forall|u: Seq<char>| #[trigger]
        results_have_url(rs.take(i + 1), u) implies results_have_url(rs.take(i), u) || u
        == rs[i].1@ by {
        let k = choose|k: int| 0 <= k < rs.take(i + 1).len() && #[trigger] rs.take(i + 1)[k].1@
            == u;
        if k < i {
            assert(rs.take(i)[k].1@ == u);
        }
    }
    assert forall|u: Seq<char>|
        results_have_url(rs.take(i), u) || u == rs[i].1@ implies #[trigger] results_have_url(
        rs.take(i + 1),
        u,
    ) by {
        if results_have_url(rs.take(i), u) {
            let k = choose|k: int| 0 <= k < rs.take(i).len() && #[trigger] rs.take(i)[k].1@ == u;
            assert(rs.take(i + 1)[k].1@ == u);
        } else {
            assert(rs.take(i + 1)[i].1@ == u);
        }
    }
}

/// What writing back a successful search does: every result url becomes a
/// website fact of the company (fresh ones without captcha), the first
/// result becomes its career page, and nothing else changes.
pub open spec fn search_apply_post(
    pre: CompanyDataStore,
    post: CompanyDataStore,
    sid: i32,
    results: Seq<(String, String)>,
) -> bool {
    &&& post.wf()
    &&& post.next_sid == pre.next_sid
    &&& post.sids == pre.sids
    &&& post.cik_rows == pre.cik_rows
    &&& post.alias_rows == pre.alias_rows
    &&& post.tag_rows == pre.tag_rows
    &&& forall|s: i32, u: Seq<char>|
        #[trigger] post.has_website(s, u) <==> pre.has_website(s, u) || (s == sid
            && results_have_url(results, u))
    &&& results.len() > 0 ==> post.discovered(sid)
    &&& forall|s: i32| s != sid ==> (#[trigger] post.discovered(s) <==> pre.discovered(s))
    &&& forall|s: i32, u: Seq<char>, f: bool|
        s != sid ==> (#[trigger] post.website_captcha_is(s, u, f) <==> pre.website_captcha_is(
            s,
            u,
            f,
        ))
    &&& forall|u: Seq<char>, f: bool|
        #[trigger] post.website_captcha_is(sid, u, f) <==> pre.website_captcha_is(sid, u, f) || (
        results_have_url(results, u) && !pre.has_website(sid, u) && f == false)
    &&& (if results.len() > 0 {
        &&& forall|s: i32|
            #[trigger] post.has_career_page(s) <==> pre.has_career_page(s) || s == sid
        &&& forall|s: i32, t: Seq<char>|
            s != sid ==> (#[trigger] post.career_page_is(s, t) <==> pre.career_page_is(s, t))
        &&& forall|t: Seq<char>| #[trigger] post.career_page_is(sid, t) <==> t == results[0].1@
    } else {
        forall|s: i32, t: Seq<char>|
            #[trigger] post.career_page_is(s, t) <==> pre.career_page_is(s, t)
    })
}

/// What one cycle did to the company it worked on.
pub enum DiscoveryOutcome {
    /// The search succeeded and its results were written back.
    Discovered(i32),
    /// The response shape was unreadable: the company was deleted.
    Deleted(i32),
    /// A transient failure survived its retries: the company was left
    /// undiscovered for a later cycle.
    Failed(SerpServiceError),
}

/// The discovery worker: the store it reads and writes, and the handle of
/// the search capability it consults.
pub struct WebsiteDiscoverer {
    pub company_data_store: CompanyDataStore,
    pub serp_service: GoogleSerpService,
}

impl WebsiteDiscoverer {
    /// A worker over a fresh, empty store, with the default search handle.
    pub fn new() -> (d: WebsiteDiscoverer)
        ensures
            d.company_data_store.wf(),
            d.company_data_store.next_sid == 1,
            forall|sid: i32| !d.company_data_store.company_exists(sid),
            d.serp_service.secret_file_path@ == "assets/google_api_key"@,
    {
        WebsiteDiscoverer {
            company_data_store: CompanyDataStore::new(),
            serp_service: GoogleSerpService::new(None),
        }
    }

    /// Pick one undiscovered company and build its search query. Reports
    /// the company's id and query; or that there is nothing to do; or that
    /// the picked company has no alias to search for.
    pub fn next_discovery_task(&self) -> (r: Result<Option<(i32, String)>, DiscoveryError>)
        requires
            self.company_data_store.wf(),
        ensures
            match r {
                Ok(Some(task)) => self.company_data_store.company_exists(task.0)
                    && !self.company_data_store.discovered(task.0) && exists|name: Seq<char>|
                    #[trigger] self.company_data_store.has_alias(task.0, name) && task.1@
                        == query_spec(name),
                Ok(None) => forall|s: i32|
                    self.company_data_store.company_exists(s)
                        ==> self.company_data_store.discovered(s),
                Err(e) => match e {
                    DiscoveryError::MissingAlias(sid) => self.company_data_store.company_exists(
                        sid,
                    ) && !self.company_data_store.discovered(sid)
                        && !self.company_data_store.has_some_alias(sid),
                    DiscoveryError::NotImplemented => false,
                },
            },
    {
        match self.company_data_store.get_next_undiscovered_company() {
            Some(pair) => {
                let (sid, pc) = pair;
                match pc.get_company_name() {
                    Some(name) => {
                        let query = construct_query(name.as_str());
                        proof {
                            let n = pc.company_aliases@[0];
                            assert(crate::tables::strings_have(pc.company_aliases@, n@)) by {
                                assert(pc.company_aliases@[0]@ == n@);
                            }
                            assert(self.company_data_store.has_alias(sid, n@));
                            assert(query@ == query_spec(n@));
                        }
                        Ok(Some((sid, query)))
                    },
                    None => {
                        proof {
                            if self.company_data_store.has_some_alias(sid) {
                                crate::tables::lemma_fact_sid_has_some(
                                    self.company_data_store.alias_rows@,
                                    sid,
                                );
                                let t = choose|t: Seq<char>|
                                    crate::tables::fact_has(
                                        self.company_data_store.alias_rows@,
                                        sid,
                                        t,
                                    );
                                assert(self.company_data_store.has_alias(sid, t));
                                assert(crate::tables::strings_have(pc.company_aliases@, t));
                                let k = choose|k: int|
                                    0 <= k < pc.company_aliases@.len()
                                        && (#[trigger] pc.company_aliases@[k])@ == t;
                            }
                        }
                        Err(DiscoveryError::MissingAlias(sid))
                    },
                }
            },
            None => Ok(None),
        }
    }

    /// Write one search outcome back to the store. Results are attached as
    /// website facts and the first as the career page; a terminal
    /// response-shape failure deletes the company; any other failure leaves
    /// the store exactly as it was.
    pub fn apply_search_outcome(
        &mut self,
        sid: i32,
        outcome: Result<Vec<(String, String)>, SerpServiceError>,
    ) -> (r: DiscoveryOutcome)
        requires
            old(self).company_data_store.wf(),
            old(self).company_data_store.company_exists(sid),
        ensures
            final(self).company_data_store.wf(),
            final(self).serp_service == old(self).serp_service,
            match outcome {
                Ok(results) => r == DiscoveryOutcome::Discovered(sid) && search_apply_post(
                    old(self).company_data_store,
                    final(self).company_data_store,
                    sid,
                    results@,
                ),
                Err(e) => {
                    if is_terminal_failure(e) {
                        r == DiscoveryOutcome::Deleted(sid) && delete_post(
                            old(self).company_data_store,
                            final(self).company_data_store,
                            sid,
                        )
                    } else {
                        r == DiscoveryOutcome::Failed(e) && final(self).company_data_store == old(
                            self,
                        ).company_data_store
                    }
                },
            },
    {
        match outcome {
            Ok(results) => {
                let ghost pre = self.company_data_store;
                let mut i: usize = 0;
                while i < results.len()
                    invariant
                        i <= results@.len(),
                        self.company_data_store.wf(),
                        self.company_data_store.company_exists(sid),
                        self.company_data_store.next_sid == pre.next_sid,
                        self.company_data_store.sids == pre.sids,
                        self.company_data_store.cik_rows == pre.cik_rows,
                        self.company_data_store.alias_rows == pre.alias_rows,
                        self.company_data_store.tag_rows == pre.tag_rows,
                        self.company_data_store.career_rows == pre.career_rows,
                        self.serp_service == old(self).serp_service,
                        forall|s: i32, u: Seq<char>|
                            #[trigger] self.company_data_store.has_website(s, u)
                                <==> pre.has_website(s, u) || (s == sid && results_have_url(
                                results@.take(i as int),
                                u,
                            )),
                        forall|s: i32, u: Seq<char>, f: bool|
                            #[trigger] self.company_data_store.website_captcha_is(s, u, f)
                                <==> pre.website_captcha_is(s, u, f) || (s == sid
                                && results_have_url(results@.take(i as int), u)
                                && !pre.has_website(sid, u) && f == false),
                        forall|s: i32|
                            s != sid ==> (#[trigger] self.company_data_store.discovered(s)
                                <==> pre.discovered(s)),
                    decreases results@.len() - i,
                {
                    proof {
                        lemma_results_take_succ(results@, i as int);
                    }
                    let res = self.company_data_store.add_website(sid, &results[i].1, false);
                    i += 1;
                }
                proof {
                    assert(results@.take(results@.len() as int) =~= results@);
                }
                let ghost mid = self.company_data_store;
                if results.len() > 0 {
                    let res = self.company_data_store.add_career_page(sid, &results[0].1);
                    proof {
                        assert(self.company_data_store.website_rows == mid.website_rows);
                        assert(self.company_data_store.discovered(sid)) by {
                            assert(results_have_url(results@, results@[0].1@)) by {
                                assert(results@[0].1@ == results@[0].1@);
                            }
                            assert(mid.has_website(sid, results@[0].1@));
                            crate::tables::lemma_web_has_sid(
                                mid.website_rows@,
                                sid,
                                results@[0].1@,
                            );
                        }
                    }
                }
                proof {
                    let fin = self.company_data_store;
                    assert forall|s: i32, u: Seq<char>| #[trigger]
                        fin.has_website(s, u) <==> pre.has_website(s, u) || (s == sid
                        && results_have_url(results@, u)) by {
                        assert(fin.has_website(s, u) == mid.has_website(s, u));
                    }
                    assert forall|s: i32, u: Seq<char>, f: bool| #[trigger]
                        fin.website_captcha_is(s, u, f) <==> pre.website_captcha_is(s, u, f) || (s
                        == sid && results_have_url(results@, u) && !pre.has_website(sid, u) && f
                        == false) by {
                        assert(fin.website_captcha_is(s, u, f) == mid.website_captcha_is(s, u, f));
                    }
                    assert forall|s: i32|
                        s != sid implies (#[trigger] fin.discovered(s) <==> pre.discovered(
                        s,
                    )) by {
                        assert(fin.discovered(s) == mid.discovered(s));
                    }
                    if results@.len() > 0 {
                        assert forall|s: i32, t: Seq<char>|
                            s != sid implies (#[trigger] fin.career_page_is(s, t)
                            <==> pre.career_page_is(s, t)) by {
                            assert(fin.career_page_is(s, t) <==> mid.career_page_is(s, t));
                            assert(mid.career_page_is(s, t) == pre.career_page_is(s, t));
                        }
                        assert forall|s: i32| #[trigger]
                            fin.has_career_page(s) <==> pre.has_career_page(s) || s == sid by {
                            assert(mid.has_career_page(s) == pre.has_career_page(s));
                        }
                    } else {
                        assert(fin.career_rows == pre.career_rows);
                    }
                }
                DiscoveryOutcome::Discovered(sid)
            },
            Err(e) => {
                match e {
                    SerpServiceError::JsonFailedError => {
                        self.company_data_store.delete_company(sid);
                        DiscoveryOutcome::Deleted(sid)
                    },
                    _ => DiscoveryOutcome::Failed(e),
                }
            },
        }
    }
}

/// The driver's pause after a cycle that reported failure: a long cool-down
/// so a degraded pipeline is not hammered.
pub const FAILURE_COOLDOWN_SECS: u64 = 1800;

/// The driver's pause when there was nothing to do: a short poll interval,
/// since another intake path may add undiscovered companies at any time.
pub const IDLE_POLL_SECS: u64 = 60;

/// What one cycle reported, as the work loop driver sees it.
pub enum CycleResult {
    /// A company was processed (discovered or deleted).
    Progress,
    /// No undiscovered company was found.
    Idle,
    /// The cycle failed; the company, if any, stays undiscovered.
    Failure,
}

/// How long the driver waits before the next cycle: nothing after progress,
/// a short poll after idling, the long cool-down after a failure.
pub fn driver_pause(result: &CycleResult) -> (secs: u64)
    ensures
        secs == (match result {
            CycleResult::Progress => 0u64,
            CycleResult::Idle => IDLE_POLL_SECS,
            CycleResult::Failure => FAILURE_COOLDOWN_SECS,
        }),
{
    match result {
        CycleResult::Progress => 0,
        CycleResult::Idle => IDLE_POLL_SECS,
        CycleResult::Failure => FAILURE_COOLDOWN_SECS,
    }
}

/// This entry point was never implemented: it always reports failure.
pub fn discover_websites_from_data_store() -> (r: Result<(), DiscoveryError>)
    ensures
        r == Err::<(), DiscoveryError>(DiscoveryError::NotImplemented),
{
    Err(DiscoveryError::NotImplemented)
}

} // verus!
