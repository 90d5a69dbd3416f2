//! The directory store: a relational model of companies and their facts.
//!
//! A company is addressed by a store-assigned surrogate id (`sid`); its
//! optional regulatory id (`cik`) maps to exactly one sid. Six tables hold
//! the state: the company list, the natural-key mapping, aliases, tags,
//! websites (each with a captcha flag) and career pages. Every operation
//! states over the spec functions below exactly which pairs it adds, changes
//! or removes, and `wf` is the schema: unique keys, set semantics, and
//! foreign keys from every fact table into the company list.

use vstd::prelude::*;

use crate::company::ProcessedCompany;
use crate::strings::contains_ci;
use crate::strings::str_contains_ci;
use crate::tables::CikRow;
use crate::tables::FactRow;
use crate::tables::WebsiteRow;
use crate::tables::cik_has;
use crate::tables::cik_lookup;
use crate::tables::cik_lookup_by_sid;
use crate::tables::cik_insert_new;
use crate::tables::cik_maps;
use crate::tables::cik_remove_sid;
use crate::tables::cik_sid_has;
use crate::tables::cik_sids_unique;
use crate::tables::ciks_unique;
use crate::tables::fact_collect;
use crate::tables::fact_count;
use crate::tables::fact_has;
use crate::tables::fact_insert;
use crate::tables::fact_lookup;
use crate::tables::fact_lookup_sid;
use crate::tables::fact_remove_sid;
use crate::tables::fact_set_for_sid;
use crate::tables::fact_sid_contains;
use crate::tables::fact_sid_has;
use crate::tables::fact_sids_unique;
use crate::tables::facts_unique;
use crate::tables::lemma_cik_maps_keys;
use crate::tables::lemma_fact_has_sid;
use crate::tables::lemma_fact_sid_has_some;
use crate::tables::lemma_sid_push;
use crate::tables::lemma_sid_take_all;
use crate::tables::lemma_sid_take_succ;
use crate::tables::lemma_strings_take_all;
use crate::tables::lemma_strings_take_succ;
use crate::tables::lemma_web_flag_has;
use crate::tables::lemma_web_has_sid;
use crate::tables::lemma_web_sid_has_some;
use crate::tables::nums_unique;
use crate::tables::sid_list_contains;
use crate::tables::sid_list_remove;
use crate::tables::strings_have;
use crate::tables::strings_unique;
use crate::tables::web_collect;
use crate::tables::web_flag_is;
use crate::tables::web_flag_lookup;
use crate::tables::web_has;
use crate::tables::web_insert;
use crate::tables::web_lookup_flag;
use crate::tables::web_remove_sid;
use crate::tables::web_set_flag;
use crate::tables::web_sid_contains;
use crate::tables::web_sid_flag_has;
use crate::tables::web_sid_has;
use crate::tables::webs_unique;
use vstd::pervasive::unreached;

verus! {

/// What a store operation can report: attaching a fact to a surrogate id
/// that no company carries.
#[derive(Clone, Copy, Debug, PartialEq, Eq, Structural)]
pub enum StoreError {
    NotFound,
}

/// The directory store. All state lives in the six tables; `next_sid` is the
/// allocator for surrogate ids, which are never reused. The fields are
/// exposed so that specifications can speak of them; every mutation goes
/// through the operations below, which keep `wf`.
pub struct CompanyDataStore {
    pub next_sid: i32,
    pub sids: Vec<i32>,
    pub cik_rows: Vec<CikRow>,
    pub alias_rows: Vec<FactRow>,
    pub tag_rows: Vec<FactRow>,
    pub website_rows: Vec<WebsiteRow>,
    pub career_rows: Vec<FactRow>,
}

impl CompanyDataStore {
    /// The schema invariant: surrogate ids are unique, positive and below
    /// the allocator; each key side of each table is unique; and every fact
    /// row points at a listed company.
    pub open spec fn wf(self) -> bool {
        &&& 1 <= self.next_sid
        &&& nums_unique(self.sids@)
        &&& forall|k: int|
            0 <= k < self.sids@.len() ==> 1 <= #[trigger] self.sids@[k] < self.next_sid
        &&& ciks_unique(self.cik_rows@)
        &&& cik_sids_unique(self.cik_rows@)
        &&& forall|s: i32| #[trigger] cik_sid_has(self.cik_rows@, s) ==> self.sids@.contains(s)
        &&& facts_unique(self.alias_rows@)
        &&& forall|s: i32| #[trigger] fact_sid_has(self.alias_rows@, s) ==> self.sids@.contains(s)
        &&& facts_unique(self.tag_rows@)
        &&& forall|s: i32| #[trigger] fact_sid_has(self.tag_rows@, s) ==> self.sids@.contains(s)
        &&& webs_unique(self.website_rows@)
        &&& forall|s: i32| #[trigger] web_sid_has(self.website_rows@, s) ==> self.sids@.contains(s)
        &&& fact_sids_unique(self.career_rows@)
        &&& forall|s: i32| #[trigger] fact_sid_has(self.career_rows@, s) ==> self.sids@.contains(s)
    }

    /// A company with this surrogate id is stored.
    pub open spec fn company_exists(self, sid: i32) -> bool {
        self.sids@.contains(sid)
    }

    /// The regulatory id `cik` maps to the surrogate id `sid`.
    pub open spec fn has_cik(self, cik: i32, sid: i32) -> bool {
        cik_maps(self.cik_rows@, cik, sid)
    }

    /// The regulatory id `cik` maps to some company.
    pub open spec fn cik_known(self, cik: i32) -> bool {
        cik_has(self.cik_rows@, cik)
    }

    /// The company `sid` has a regulatory id.
    pub open spec fn sid_has_cik(self, sid: i32) -> bool {
        cik_sid_has(self.cik_rows@, sid)
    }

    /// The company `sid` carries the alias.
    pub open spec fn has_alias(self, sid: i32, alias: Seq<char>) -> bool {
        fact_has(self.alias_rows@, sid, alias)
    }

    /// The company `sid` carries at least one alias.
    pub open spec fn has_some_alias(self, sid: i32) -> bool {
        fact_sid_has(self.alias_rows@, sid)
    }

    /// How many alias rows carry the pair: 1 for a held alias, by `wf`.
    pub open spec fn alias_count(self, sid: i32, alias: Seq<char>) -> nat {
        fact_count(self.alias_rows@, sid, alias)
    }

    /// The company `sid` carries the tag.
    pub open spec fn has_tag(self, sid: i32, tag: Seq<char>) -> bool {
        fact_has(self.tag_rows@, sid, tag)
    }

    /// The company `sid` carries at least one tag.
    pub open spec fn has_some_tag(self, sid: i32) -> bool {
        fact_sid_has(self.tag_rows@, sid)
    }

    /// The company `sid` carries the website.
    pub open spec fn has_website(self, sid: i32, url: Seq<char>) -> bool {
        web_has(self.website_rows@, sid, url)
    }

    /// The company `sid` has at least one website fact: it is discovered,
    /// and the work queue will not hand it out.
    pub open spec fn discovered(self, sid: i32) -> bool {
        web_sid_has(self.website_rows@, sid)
    }

    /// The website (sid, url) is stored and its captcha flag is `f`.
    pub open spec fn website_captcha_is(self, sid: i32, url: Seq<char>, f: bool) -> bool {
        web_flag_is(self.website_rows@, sid, url, f)
    }

    /// The company `sid` has `url` as its career page.
    pub open spec fn career_page_is(self, sid: i32, url: Seq<char>) -> bool {
        fact_has(self.career_rows@, sid, url)
    }

    /// The company `sid` has a career page.
    pub open spec fn has_career_page(self, sid: i32) -> bool {
        fact_sid_has(self.career_rows@, sid)
    }

    /// The assembled view is faithful: each field reports exactly the facts
    /// the store holds for `sid`.
    pub open spec fn view_matches(self, sid: i32, pc: ProcessedCompany) -> bool {
        &&& (match pc.cik {
            Some(c) => self.has_cik(c, sid),
            None => !self.sid_has_cik(sid),
        })
        &&& strings_unique(pc.company_aliases@)
        &&& forall|t: Seq<char>|
            #[trigger] strings_have(pc.company_aliases@, t) <==> self.has_alias(sid, t)
        &&& (match pc.websites {
            Some(ws) => ws@.len() > 0 && strings_unique(ws@) && (forall|u: Seq<char>|
                #[trigger] strings_have(ws@, u) <==> self.has_website(sid, u)),
            None => !self.discovered(sid),
        })
        &&& (match pc.career_page {
            Some(u) => self.career_page_is(sid, u@),
            None => !self.has_career_page(sid),
        })
        &&& (match pc.tags {
            Some(ts) => ts@.len() > 0 && strings_unique(ts@) && (forall|t: Seq<char>|
                #[trigger] strings_have(ts@, t) <==> self.has_tag(sid, t)),
            None => !self.has_some_tag(sid),
        })
        &&& (match pc.has_captcha {
            Some(f) => web_sid_flag_has(self.website_rows@, sid, f),
            None => !self.discovered(sid),
        })
    }

    /// An empty store: no companies, no facts, ids start at 1.
    pub fn new() -> (s: CompanyDataStore)
        ensures
            s.wf(),
            s.next_sid == 1,
            s.sids@.len() == 0,
            s.cik_rows@.len() == 0,
            s.alias_rows@.len() == 0,
            s.tag_rows@.len() == 0,
            s.website_rows@.len() == 0,
            s.career_rows@.len() == 0,
            forall|sid: i32| !s.company_exists(sid),
    {
        let s = CompanyDataStore {
            next_sid: 1,
            sids: Vec::new(),
            cik_rows: Vec::new(),
            alias_rows: Vec::new(),
            tag_rows: Vec::new(),
            website_rows: Vec::new(),
            career_rows: Vec::new(),
        };
        assert forall|sid: i32| !s.company_exists(sid) by {
            if s.sids@.contains(sid) {
                let k = choose|k: int| 0 <= k < s.sids@.len() && #[trigger] s.sids@[k] == sid;
            }
        }
        s
    }

    /// Allocate a fresh company with no facts and return its surrogate id.
    /// Ids grow by one per allocation and are never reused.
    pub fn initialize_company(&mut self) -> (sid: i32)
        requires
            old(self).wf(),
            old(self).next_sid < i32::MAX,
        ensures
            final(self).wf(),
            sid == old(self).next_sid,
            final(self).next_sid == old(self).next_sid + 1,
            !old(self).company_exists(sid),
            final(self).company_exists(sid),
            forall|s: i32|
                #[trigger] final(self).company_exists(s) <==> old(self).company_exists(s) || s
                    == sid,
            final(self).cik_rows == old(self).cik_rows,
            final(self).alias_rows == old(self).alias_rows,
            final(self).tag_rows == old(self).tag_rows,
            final(self).website_rows == old(self).website_rows,
            final(self).career_rows == old(self).career_rows,
    {
        let sid = self.next_sid;
        let ghost before = self.sids@;
        proof {
            lemma_sid_push(before, sid);
            assert(!before.contains(sid)) by {
                if before.contains(sid) {
                    let k = choose|k: int| 0 <= k < before.len() && #[trigger] before[k] == sid;
                }
            }
        }
        self.next_sid = self.next_sid + 1;
        self.sids.push(sid);
        assert(self.sids@ == before.push(sid));
        assert(nums_unique(self.sids@)) by {
            assert forall|a: int, b: int| 0 <= a < b < self.sids@.len() implies self.sids@[a]
                != self.sids@[b] by {
                if b == self.sids@.len() - 1 {
                    assert(self.sids@[a] == before[a]);
                    if self.sids@[a] == sid {
                        assert(before.contains(sid)) by {
                            assert(before[a] == sid);
                        }
                    }
                } else {
                    assert(self.sids@[a] == before[a] && self.sids@[b] == before[b]);
                }
            }
        }
        assert forall|k: int| 0 <= k < self.sids@.len() implies 1 <= #[trigger] self.sids@[k]
            < self.next_sid by {
            if k < before.len() {
                assert(self.sids@[k] == before[k]);
            }
        }
        sid
    }

    /// Record that `cik` is the regulatory id of the company `sid`. Fails
    /// exactly when no company carries `sid`; when either key is already
    /// taken, the existing mapping stands and the call is a no-op.
    pub fn add_cik(&mut self, cik: i32, sid: i32) -> (r: Result<(), StoreError>)
        requires
            old(self).wf(),
        ensures
            final(self).wf(),
            r is Ok <==> old(self).company_exists(sid),
            r is Err ==> *final(self) == *old(self),
            final(self).next_sid == old(self).next_sid,
            final(self).sids == old(self).sids,
            final(self).alias_rows == old(self).alias_rows,
            final(self).tag_rows == old(self).tag_rows,
            final(self).website_rows == old(self).website_rows,
            final(self).career_rows == old(self).career_rows,
            (old(self).cik_known(cik) || old(self).sid_has_cik(sid)) ==> final(self).cik_rows
                == old(self).cik_rows,
            (r is Ok && !old(self).cik_known(cik) && !old(self).sid_has_cik(sid)) ==> {
                &&& forall|c: i32, s: i32|
                    #[trigger] final(self).has_cik(c, s) <==> old(self).has_cik(c, s) || (c == cik
                        && s == sid)
                &&& forall|c: i32|
                    #[trigger] final(self).cik_known(c) <==> old(self).cik_known(c) || c == cik
                &&& forall|s: i32|
                    #[trigger] final(self).sid_has_cik(s) <==> old(self).sid_has_cik(s) || s == sid
            },
    {
        if !sid_list_contains(&self.sids, sid) {
            return Err(StoreError::NotFound);
        }
        match cik_lookup(&self.cik_rows, cik) {
            Some(_) => Ok(()),
            None => {
                match cik_lookup_by_sid(&self.cik_rows, sid) {
                    Some(_) => Ok(()),
                    None => {
                        cik_insert_new(&mut self.cik_rows, cik, sid);
                        assert forall|s: i32| #[trigger]
                            cik_sid_has(self.cik_rows@, s) implies self.sids@.contains(s) by {}
                        Ok(())
                    },
                }
            },
        }
    }

    /// Attach an alias to the company `sid`. Fails exactly when no company
    /// carries `sid`; attaching a held alias is a no-op.
    pub fn add_alias(&mut self, sid: i32, alias: &String) -> (r: Result<(), StoreError>)
        requires
            old(self).wf(),
        ensures
            final(self).wf(),
            r is Ok <==> old(self).company_exists(sid),
            r is Err ==> *final(self) == *old(self),
            r is Ok ==> alias_add_post(*old(self), *final(self), sid, alias@),
    {
        if !sid_list_contains(&self.sids, sid) {
            return Err(StoreError::NotFound);
        }
        fact_insert(&mut self.alias_rows, sid, alias);
        assert forall|s: i32| #[trigger]
            fact_sid_has(self.alias_rows@, s) implies self.sids@.contains(s) by {}
        Ok(())
    }

    /// Attach a tag to the company `sid`. Fails exactly when no company
    /// carries `sid`; attaching a held tag is a no-op.
    pub fn add_tag(&mut self, sid: i32, tag: &String) -> (r: Result<(), StoreError>)
        requires
            old(self).wf(),
        ensures
            final(self).wf(),
            r is Ok <==> old(self).company_exists(sid),
            r is Err ==> *final(self) == *old(self),
            r is Ok ==> {
                &&& final(self).next_sid == old(self).next_sid
                &&& final(self).sids == old(self).sids
                &&& final(self).cik_rows == old(self).cik_rows
                &&& final(self).alias_rows == old(self).alias_rows
                &&& final(self).website_rows == old(self).website_rows
                &&& final(self).career_rows == old(self).career_rows
                &&& forall|s: i32, t: Seq<char>|
                    #[trigger] final(self).has_tag(s, t) <==> old(self).has_tag(s, t) || (s == sid
                        && t == tag@)
            },
    {
        if !sid_list_contains(&self.sids, sid) {
            return Err(StoreError::NotFound);
        }
        fact_insert(&mut self.tag_rows, sid, tag);
        assert forall|s: i32| #[trigger]
            fact_sid_has(self.tag_rows@, s) implies self.sids@.contains(s) by {}
        Ok(())
    }

    /// Attach a website to the company `sid` with the given captcha flag.
    /// Fails exactly when no company carries `sid`; attaching a held website
    /// is a no-op that keeps the stored flag.
    pub fn add_website(&mut self, sid: i32, website: &String, has_captcha: bool) -> (r: Result<
        (),
        StoreError,
    >)
        requires
            old(self).wf(),
        ensures
            final(self).wf(),
            r is Ok <==> old(self).company_exists(sid),
            r is Err ==> *final(self) == *old(self),
            r is Ok ==> website_add_post(*old(self), *final(self), sid, website@, has_captcha),
    {
        if !sid_list_contains(&self.sids, sid) {
            return Err(StoreError::NotFound);
        }
        web_insert(&mut self.website_rows, sid, website, has_captcha);
        assert forall|s: i32| #[trigger]
            web_sid_has(self.website_rows@, s) implies self.sids@.contains(s) by {}
        Ok(())
    }

    /// Set the captcha flag of the website (sid, url). Fails exactly when no
    /// company carries `sid`; with a url the company does not carry, the
    /// store is unchanged.
    pub fn update_captcha_status(&mut self, sid: i32, website: &String, has_captcha: bool) -> (r:
        Result<(), StoreError>)
        requires
            old(self).wf(),
        ensures
            final(self).wf(),
            r is Ok <==> old(self).company_exists(sid),
            r is Err ==> *final(self) == *old(self),
            r is Ok ==> captcha_set_post(*old(self), *final(self), sid, website@, has_captcha),
    {
        if !sid_list_contains(&self.sids, sid) {
            return Err(StoreError::NotFound);
        }
        web_set_flag(&mut self.website_rows, sid, website, has_captcha);
        assert forall|s: i32| #[trigger]
            web_sid_has(self.website_rows@, s) implies self.sids@.contains(s) by {}
        Ok(())
    }

    /// Set the career page of the company `sid`, replacing any previous one.
    /// Fails exactly when no company carries `sid`.
    pub fn add_career_page(&mut self, sid: i32, career_page: &String) -> (r: Result<
        (),
        StoreError,
    >)
        requires
            old(self).wf(),
        ensures
            final(self).wf(),
            r is Ok <==> old(self).company_exists(sid),
            r is Err ==> *final(self) == *old(self),
            r is Ok ==> {
                &&& final(self).next_sid == old(self).next_sid
                &&& final(self).sids == old(self).sids
                &&& final(self).cik_rows == old(self).cik_rows
                &&& final(self).alias_rows == old(self).alias_rows
                &&& final(self).tag_rows == old(self).tag_rows
                &&& final(self).website_rows == old(self).website_rows
                &&& forall|s: i32|
                    #[trigger] final(self).has_career_page(s) <==> old(self).has_career_page(s)
                        || s == sid
                &&& forall|s: i32, t: Seq<char>|
                    s != sid ==> (#[trigger] final(self).career_page_is(s, t) <==> old(
                        self,
                    ).career_page_is(s, t))
                &&& forall|t: Seq<char>|
                    #[trigger] final(self).career_page_is(sid, t) <==> t == career_page@
            },
    {
        if !sid_list_contains(&self.sids, sid) {
            return Err(StoreError::NotFound);
        }
        fact_set_for_sid(&mut self.career_rows, sid, career_page);
        assert forall|s: i32| #[trigger]
            fact_sid_has(self.career_rows@, s) implies self.sids@.contains(s) by {}
        Ok(())
    }

    /// Remove the company `sid` and every fact attached to it. Safe on an
    /// unknown sid, and never leaves a dangling fact behind.
    pub fn delete_company(&mut self, sid: i32)
        requires
            old(self).wf(),
        ensures
            delete_post(*old(self), *final(self), sid),
    {
        sid_list_remove(&mut self.sids, sid);
        cik_remove_sid(&mut self.cik_rows, sid);
        fact_remove_sid(&mut self.alias_rows, sid);
        fact_remove_sid(&mut self.tag_rows, sid);
        web_remove_sid(&mut self.website_rows, sid);
        fact_remove_sid(&mut self.career_rows, sid);
        assert forall|k: int| 0 <= k < self.sids@.len() implies 1 <= #[trigger] self.sids@[k]
            < self.next_sid by {
            assert(self.sids@.contains(self.sids@[k]));
            assert(old(self).sids@.contains(self.sids@[k]));
            let j = choose|j: int|
                0 <= j < old(self).sids@.len() && #[trigger] old(self).sids@[j] == self.sids@[k];
        }
        assert forall|s: i32| #[trigger]
            cik_sid_has(self.cik_rows@, s) implies self.sids@.contains(s) by {}
        assert forall|s: i32| #[trigger]
            fact_sid_has(self.alias_rows@, s) implies self.sids@.contains(s) by {}
        assert forall|s: i32| #[trigger]
            fact_sid_has(self.tag_rows@, s) implies self.sids@.contains(s) by {}
        assert forall|s: i32| #[trigger]
            web_sid_has(self.website_rows@, s) implies self.sids@.contains(s) by {}
        assert forall|s: i32| #[trigger]
            fact_sid_has(self.career_rows@, s) implies self.sids@.contains(s) by {}
    }

    /// The surrogate id of the company with this regulatory id, if any.
    pub fn cik_exists(&self, cik: i32) -> (r: Option<i32>)
        ensures
            match r {
                Some(sid) => self.has_cik(cik, sid),
                None => !self.cik_known(cik),
            },
    {
        cik_lookup(&self.cik_rows, cik)
    }

    /// The surrogate id of the company with this regulatory id, if any.
    pub fn get_sid_from_cik(&self, cik: i32) -> (r: Option<i32>)
        ensures
            match r {
                Some(sid) => self.has_cik(cik, sid),
                None => !self.cik_known(cik),
            },
    {
        cik_lookup(&self.cik_rows, cik)
    }

    /// Whether some company carries this regulatory id.
    pub fn contains_cik(&self, cik: i32) -> (b: bool)
        ensures
            b == self.cik_known(cik),
    {
        match cik_lookup(&self.cik_rows, cik) {
            Some(sid) => {
                proof {
                    lemma_cik_maps_keys(self.cik_rows@, cik, sid);
                }
                true
            },
            None => false,
        }
    }

    /// The regulatory id of the company `sid`, if it has one.
    pub fn get_cik_from_sid(&self, sid: i32) -> (r: Option<i32>)
        ensures
            match r {
                Some(c) => self.has_cik(c, sid),
                None => !self.sid_has_cik(sid),
            },
    {
        cik_lookup_by_sid(&self.cik_rows, sid)
    }

    /// Every alias of the company `sid`, each exactly once.
    pub fn get_aliases_from_sid(&self, sid: i32) -> (r: Vec<String>)
        requires
            self.wf(),
        ensures
            forall|t: Seq<char>| #[trigger] strings_have(r@, t) <==> self.has_alias(sid, t),
            strings_unique(r@),
    {
        fact_collect(&self.alias_rows, sid)
    }

    /// Every tag of the company `sid`, or none when it has no tags.
    pub fn get_tags_from_sid(&self, sid: i32) -> (r: Option<Vec<String>>)
        requires
            self.wf(),
        ensures
            match r {
                Some(ts) => ts@.len() > 0 && strings_unique(ts@) && (forall|t: Seq<char>|
                    #[trigger] strings_have(ts@, t) <==> self.has_tag(sid, t)),
                None => !self.has_some_tag(sid),
            },
    {
        let tags = fact_collect(&self.tag_rows, sid);
        if tags.len() == 0 {
            proof {
                if fact_sid_has(self.tag_rows@, sid) {
                    lemma_fact_sid_has_some(self.tag_rows@, sid);
                    let t = choose|t: Seq<char>| fact_has(self.tag_rows@, sid, t);
                    assert(strings_have(tags@, t));
                    let k = choose|k: int| 0 <= k < tags@.len() && tags@[k]@ == t;
                }
            }
            None
        } else {
            Some(tags)
        }
    }

    /// Every website of the company `sid`, or none when it has no websites.
    pub fn get_websites_from_sid(&self, sid: i32) -> (r: Option<Vec<String>>)
        requires
            self.wf(),
        ensures
            match r {
                Some(ws) => ws@.len() > 0 && strings_unique(ws@) && (forall|u: Seq<char>|
                    #[trigger] strings_have(ws@, u) <==> self.has_website(sid, u)),
                None => !self.discovered(sid),
            },
    {
        let websites = web_collect(&self.website_rows, sid);
        if websites.len() == 0 {
            proof {
                if web_sid_has(self.website_rows@, sid) {
                    lemma_web_sid_has_some(self.website_rows@, sid);
                    let u = choose|u: Seq<char>| web_has(self.website_rows@, sid, u);
                    assert(strings_have(websites@, u));
                    let k = choose|k: int| 0 <= k < websites@.len() && websites@[k]@ == u;
                }
            }
            None
        } else {
            Some(websites)
        }
    }

    /// The career page of the company `sid`, if it has one.
    pub fn get_career_page_from_sid(&self, sid: i32) -> (r: Option<String>)
        ensures
            match r {
                Some(u) => self.career_page_is(sid, u@),
                None => !self.has_career_page(sid),
            },
    {
        fact_lookup(&self.career_rows, sid)
    }

    /// The captcha flag of some website of the company `sid`, if it has any
    /// website.
    pub fn get_captcha_status_from_sid(&self, sid: i32) -> (r: Option<bool>)
        ensures
            match r {
                Some(f) => web_sid_flag_has(self.website_rows@, sid, f),
                None => !self.discovered(sid),
            },
    {
        web_flag_lookup(&self.website_rows, sid)
    }

    /// The captcha flag stored for the website (sid, url), if that pair is
    /// stored.
    pub fn get_website_captcha_status(&self, sid: i32, website: &String) -> (r: Option<bool>)
        ensures
            match r {
                Some(f) => self.website_captcha_is(sid, website@, f),
                None => !self.has_website(sid, website@),
            },
    {
        web_lookup_flag(&self.website_rows, sid, website)
    }


    /// Assemble the full view of the company `sid`: its regulatory id, its
    /// aliases, tags, websites, career page and captcha status.
    pub fn construct_processed_company_from_sid(&self, sid: i32) -> (r: Option<ProcessedCompany>)
        requires
            self.wf(),
        ensures
            match r {
                Some(pc) => self.company_exists(sid) && self.view_matches(sid, pc),
                None => !self.company_exists(sid),
            },
    {
        if !sid_list_contains(&self.sids, sid) {
            return None;
        }
        let cik = cik_lookup_by_sid(&self.cik_rows, sid);
        let aliases = fact_collect(&self.alias_rows, sid);
        let tags = self.get_tags_from_sid(sid);
        let websites = self.get_websites_from_sid(sid);
        let career_page = fact_lookup(&self.career_rows, sid);
        let has_captcha = web_flag_lookup(&self.website_rows, sid);
        Some(ProcessedCompany::new(cik, aliases, websites, career_page, tags, has_captcha))
    }

    /// The full view of the company with this regulatory id, if any company
    /// carries it.
    pub fn get_company_by_cik(&self, cik: i32) -> (r: Option<ProcessedCompany>)
        requires
            self.wf(),
        ensures
            match r {
                Some(pc) => exists|sid: i32|
                    #[trigger] self.has_cik(cik, sid) && self.view_matches(sid, pc),
                None => !self.cik_known(cik),
            },
    {
        match cik_lookup(&self.cik_rows, cik) {
            Some(sid) => {
                proof {
                    lemma_cik_maps_keys(self.cik_rows@, cik, sid);
                }
                match self.construct_processed_company_from_sid(sid) {
                    Some(pc) => {
                        assert(self.has_cik(cik, sid) && self.view_matches(sid, pc));
                        Some(pc)
                    },
                    None => unreached(),
                }
            },
            None => None,
        }
    }

    /// The full view of every stored company.
    pub fn get_companies(&self) -> (r: Vec<ProcessedCompany>)
        requires
            self.wf(),
        ensures
            r@.len() == self.sids@.len(),
            forall|k: int|
                0 <= k < r@.len() ==> self.view_matches(self.sids@[k], #[trigger] r@[k]),
    {
        let mut out: Vec<ProcessedCompany> = Vec::new();
        let mut i: usize = 0;
        while i < self.sids.len()
            invariant
                i <= self.sids@.len(),
                self.wf(),
                out@.len() == i,
                forall|k: int|
                    0 <= k < i ==> self.view_matches(self.sids@[k], #[trigger] out@[k]),
            decreases self.sids@.len() - i,
        {
            let sid = self.sids[i];
            assert(self.company_exists(sid)) by {
                assert(self.sids@[i as int] == sid);
            }
            match self.construct_processed_company_from_sid(sid) {
                Some(pc) => {
                    out.push(pc);
                },
                None => {
                    proof {
                        assert(false);
                    }
                },
            }
            i += 1;
        }
        out
    }

    /// One company that has no website fact yet, with its full view; or
    /// none, in which case every stored company is discovered.
    pub fn get_next_undiscovered_company(&self) -> (r: Option<(i32, ProcessedCompany)>)
        requires
            self.wf(),
        ensures
            match r {
                Some(pair) => self.company_exists(pair.0) && !self.discovered(pair.0)
                    && self.view_matches(pair.0, pair.1),
                None => forall|s: i32| self.company_exists(s) ==> self.discovered(s),
            },
    {
        let mut i: usize = 0;
        while i < self.sids.len()
            invariant
                i <= self.sids@.len(),
                self.wf(),
                forall|k: int| 0 <= k < i ==> web_sid_has(self.website_rows@, #[trigger] self.sids@[k]),
            decreases self.sids@.len() - i,
        {
            let sid = self.sids[i];
            if !web_sid_contains(&self.website_rows, sid) {
                assert(self.company_exists(sid)) by {
                    assert(self.sids@[i as int] == sid);
                }
                match self.construct_processed_company_from_sid(sid) {
                    Some(pc) => {
                        return Some((sid, pc));
                    },
                    None => {
                        proof {
                            assert(false);
                        }
                    },
                }
            }
            i += 1;
        }
        assert forall|s: i32| self.company_exists(s) implies self.discovered(s) by {
            let k = choose|k: int| 0 <= k < self.sids@.len() && #[trigger] self.sids@[k] == s;
        }
        None
    }


    /// Find the company an upsert targets through its natural key, or create
    /// a fresh one; record the natural-key mapping.
    fn upsert_resolve(&mut self, cik: Option<i32>) -> (sid: i32)
        requires
            old(self).wf(),
            // the id allocator must have room only when a company is created
            (match cik {
                Some(k) => old(self).cik_known(k) || old(self).next_sid < i32::MAX,
                None => old(self).next_sid < i32::MAX,
            }),
        ensures
            final(self).wf(),
            final(self).company_exists(sid),
            forall|s: i32|
                #[trigger] final(self).company_exists(s) <==> old(self).company_exists(s) || s
                    == sid,
            (match cik {
                Some(k) => {
                    &&& (if old(self).cik_known(k) {
                        old(self).has_cik(k, sid) && final(self).next_sid == old(self).next_sid
                    } else {
                        sid == old(self).next_sid && final(self).next_sid == old(self).next_sid
                            + 1
                    })
                    &&& final(self).has_cik(k, sid)
                    &&& forall|c2: i32, s2: i32|
                        #[trigger] final(self).has_cik(c2, s2) <==> old(self).has_cik(c2, s2) || (
                        c2 == k && s2 == sid)
                },
                None => {
                    &&& sid == old(self).next_sid
                    &&& final(self).next_sid == old(self).next_sid + 1
                    &&& final(self).cik_rows == old(self).cik_rows
                },
            }),
            final(self).sids@.contains(sid),
            final(self).alias_rows == old(self).alias_rows,
            final(self).tag_rows == old(self).tag_rows,
            final(self).website_rows == old(self).website_rows,
            final(self).career_rows == old(self).career_rows,
    {
        match cik {
            Some(k) => {
                match self.cik_exists(k) {
                    Some(existing) => {
                        proof {
                            lemma_cik_maps_keys(self.cik_rows@, k, existing);
                            assert(self.company_exists(existing));
                            assert forall|s: i32| #[trigger]
                                self.company_exists(s) <==> old(self).company_exists(s) || s
                                == existing by {}
                        }
                        existing
                    },
                    None => {
                        let new_sid = self.initialize_company();
                        let ghost mid = *self;
                        proof {
                            // the fresh company cannot carry a regulatory id yet
                            if cik_sid_has(self.cik_rows@, new_sid) {
                                assert(old(self).sids@.contains(new_sid));
                            }
                        }
                        let res = self.add_cik(k, new_sid);
                        proof {
                            assert forall|s: i32| #[trigger]
                                self.company_exists(s) <==> old(self).company_exists(s) || s
                                == new_sid by {
                                assert(self.sids == mid.sids);
                                assert(mid.company_exists(s) <==> old(self).company_exists(s) || s
                                    == new_sid);
                            }
                            assert(mid.cik_rows == old(self).cik_rows);
                            assert forall|c2: i32, s2: i32| #[trigger]
                                self.has_cik(c2, s2) <==> old(self).has_cik(c2, s2) || (c2 == k
                                && s2 == new_sid) by {
                                assert(self.has_cik(c2, s2) <==> mid.has_cik(c2, s2) || (c2 == k
                                    && s2 == new_sid));
                            }
                        }
                        new_sid
                    },
                }
            },
            None => self.initialize_company(),
        }
    }

    /// Upsert: resolve the company by its regulatory id (creating one when
    /// the id is new or absent) and merge in every supplied fact, with set
    /// union semantics. Returns the surrogate id of the one stored company.
    pub fn add_company(&mut self, company: ProcessedCompany) -> (r: Result<i32, StoreError>)
        requires
            old(self).wf(),
            // the id allocator must have room only when the natural key does
            // not already resolve to a stored company
            (match company.cik {
                Some(k) => old(self).cik_known(k) || old(self).next_sid < i32::MAX,
                None => old(self).next_sid < i32::MAX,
            }),
        ensures
            final(self).wf(),
            r is Ok,
            match r {
                Ok(sid) => upsert_post(*old(self), *final(self), company, sid),
                Err(_) => false,
            },
    {
        let ghost pre = *old(self);
        let sid = self.upsert_resolve(company.cik);
        let ghost mid_a = *self;

        // aliases: set union
        let mut i: usize = 0;
        while i < company.company_aliases.len()
            invariant
                self.wf(),
                self.company_exists(sid),
                i <= company.company_aliases@.len(),
                self.next_sid == mid_a.next_sid,
                self.sids == mid_a.sids,
                self.cik_rows == mid_a.cik_rows,
                self.tag_rows == mid_a.tag_rows,
                self.website_rows == mid_a.website_rows,
                self.career_rows == mid_a.career_rows,
                forall|s: i32, t: Seq<char>|
                    #[trigger] self.has_alias(s, t) <==> mid_a.has_alias(s, t) || (s == sid
                        && strings_have(company.company_aliases@.take(i as int), t)),
            decreases company.company_aliases@.len() - i,
        {
            proof {
                lemma_strings_take_succ(company.company_aliases@, i as int);
            }
            let res = self.add_alias(sid, &company.company_aliases[i]);
            i += 1;
        }
        proof {
            lemma_strings_take_all(company.company_aliases@);
        }
        let ghost mid_t = *self;

        // tags: set union
        match &company.tags {
            Some(ts) => {
                let mut i: usize = 0;
                while i < ts.len()
                    invariant
                        self.wf(),
                        self.company_exists(sid),
                        i <= ts@.len(),
                        self.next_sid == mid_t.next_sid,
                        self.sids == mid_t.sids,
                        self.cik_rows == mid_t.cik_rows,
                        self.alias_rows == mid_t.alias_rows,
                        self.website_rows == mid_t.website_rows,
                        self.career_rows == mid_t.career_rows,
                        forall|s: i32, t: Seq<char>|
                            #[trigger] self.has_tag(s, t) <==> mid_t.has_tag(s, t) || (s == sid
                                && strings_have(ts@.take(i as int), t)),
                    decreases ts@.len() - i,
                {
                    proof {
                        lemma_strings_take_succ(ts@, i as int);
                    }
                    let res = self.add_tag(sid, &ts[i]);
                    i += 1;
                }
                proof {
                    lemma_strings_take_all(ts@);
                }
            },
            None => {},
        }
        let ghost mid_w = *self;

        // websites: set union, fresh urls start without captcha
        match &company.websites {
            Some(ws) => {
                let mut i: usize = 0;
                while i < ws.len()
                    invariant
                        self.wf(),
                        self.company_exists(sid),
                        i <= ws@.len(),
                        self.next_sid == mid_w.next_sid,
                        self.sids == mid_w.sids,
                        self.cik_rows == mid_w.cik_rows,
                        self.alias_rows == mid_w.alias_rows,
                        self.tag_rows == mid_w.tag_rows,
                        self.career_rows == mid_w.career_rows,
                        forall|s: i32, u: Seq<char>|
                            #[trigger] self.has_website(s, u) <==> mid_w.has_website(s, u) || (s
                                == sid && strings_have(ws@.take(i as int), u)),
                        forall|s: i32, u: Seq<char>, f: bool|
                            #[trigger] self.website_captcha_is(s, u, f) <==> mid_w.website_captcha_is(
                                s,
                                u,
                                f,
                            ) || (s == sid && strings_have(ws@.take(i as int), u)
                                && !mid_w.has_website(sid, u) && f == false),
                    decreases ws@.len() - i,
                {
                    proof {
                        lemma_strings_take_succ(ws@, i as int);
                    }
                    let res = self.add_website(sid, &ws[i], false);
                    i += 1;
                }
                proof {
                    lemma_strings_take_all(ws@);
                }
            },
            None => {},
        }
        let ghost mid_c = *self;

        // career page: replace or attach
        match &company.career_page {
            Some(cp) => {
                let res = self.add_career_page(sid, cp);
            },
            None => {},
        }
        let ghost mid_f = *self;

        // captcha: a supplied flag applies to the supplied career page url
        // among the company's websites
        match &company.career_page {
            Some(cp) => {
                match &company.has_captcha {
                    Some(f) => {
                        let res = self.update_captcha_status(sid, cp, *f);
                    },
                    None => {},
                }
            },
            None => {},
        }
        proof {
            // stitch the intermediate states into the single upsert step
            assert(self.sids == mid_a.sids);
            assert forall|s: i32| #[trigger]
                self.company_exists(s) <==> pre.company_exists(s) || s == sid by {
                assert(mid_a.company_exists(s) <==> pre.company_exists(s) || s == sid);
            }
            assert(self.cik_rows == mid_a.cik_rows);
            match company.cik {
                Some(k) => {
                    assert forall|c2: i32, s2: i32| #[trigger]
                        self.has_cik(c2, s2) <==> pre.has_cik(c2, s2) || (c2 == k && s2
                        == sid) by {
                        assert(mid_a.has_cik(c2, s2) <==> pre.has_cik(c2, s2) || (c2 == k && s2
                            == sid));
                    }
                    assert(self.has_cik(k, sid)) by {
                        assert(mid_a.has_cik(k, sid));
                    }
                },
                None => {
                    assert(mid_a.cik_rows == pre.cik_rows);
                },
            }
            assert(self.alias_rows == mid_t.alias_rows);
            assert(mid_a.alias_rows == pre.alias_rows);
            assert forall|s: i32, t: Seq<char>| #[trigger]
                self.has_alias(s, t) <==> pre.has_alias(s, t) || (s == sid && strings_have(
                company.company_aliases@,
                t,
            )) by {
                assert(self.has_alias(s, t) == mid_t.has_alias(s, t));
                assert(mid_t.has_alias(s, t) <==> mid_a.has_alias(s, t) || (s == sid
                    && strings_have(company.company_aliases@, t)));
                assert(mid_a.has_alias(s, t) == pre.has_alias(s, t));
            }
            assert(self.tag_rows == mid_w.tag_rows);
            assert(mid_t.tag_rows == mid_a.tag_rows && mid_a.tag_rows == pre.tag_rows);
            match company.tags {
                Some(ts) => {
                    assert forall|s: i32, t: Seq<char>| #[trigger]
                        self.has_tag(s, t) <==> pre.has_tag(s, t) || (s == sid && strings_have(
                        ts@,
                        t,
                    )) by {
                        assert(self.has_tag(s, t) == mid_w.has_tag(s, t));
                        assert(mid_w.has_tag(s, t) <==> mid_t.has_tag(s, t) || (s == sid
                            && strings_have(ts@, t)));
                        assert(mid_t.has_tag(s, t) == pre.has_tag(s, t));
                    }
                },
                None => {
                    assert(self.tag_rows == pre.tag_rows);
                },
            }
            assert(mid_w.website_rows == pre.website_rows);
            assert(mid_f.website_rows == mid_c.website_rows);
            match company.websites {
                Some(ws) => {
                    assert forall|s: i32, u: Seq<char>| #[trigger]
                        self.has_website(s, u) <==> pre.has_website(s, u) || (s == sid
                        && strings_have(ws@, u)) by {
                        assert(self.has_website(s, u) == mid_f.has_website(s, u));
                        assert(mid_f.has_website(s, u) == mid_c.has_website(s, u));
                        assert(mid_c.has_website(s, u) <==> mid_w.has_website(s, u) || (s == sid
                            && strings_have(ws@, u)));
                        assert(mid_w.has_website(s, u) == pre.has_website(s, u));
                    }
                },
                None => {
                    assert forall|s: i32, u: Seq<char>| #[trigger]
                        self.has_website(s, u) <==> pre.has_website(s, u) by {
                        assert(self.has_website(s, u) <==> mid_f.has_website(s, u));
                        assert(mid_f.has_website(s, u) == mid_c.has_website(s, u));
                        assert(mid_c.has_website(s, u) == pre.has_website(s, u));
                    }
                },
            }
            assert(self.career_rows == mid_f.career_rows);
            assert(mid_c.career_rows == mid_w.career_rows && mid_w.career_rows == mid_t.career_rows
                && mid_t.career_rows == mid_a.career_rows && mid_a.career_rows == pre.career_rows);
            match company.career_page {
                Some(u) => {
                    assert forall|s: i32| #[trigger]
                        self.has_career_page(s) <==> pre.has_career_page(s) || s == sid by {
                        assert(self.has_career_page(s) == mid_f.has_career_page(s));
                        assert(mid_f.has_career_page(s) <==> mid_c.has_career_page(s) || s == sid);
                        assert(mid_c.has_career_page(s) == pre.has_career_page(s));
                    }
                    assert forall|s: i32, t: Seq<char>|
                        s != sid implies (#[trigger] self.career_page_is(s, t)
                        <==> pre.career_page_is(s, t)) by {
                        assert(self.career_page_is(s, t) == mid_f.career_page_is(s, t));
                        assert(mid_f.career_page_is(s, t) <==> mid_c.career_page_is(s, t));
                        assert(mid_c.career_page_is(s, t) == pre.career_page_is(s, t));
                    }
                    assert forall|t: Seq<char>| #[trigger]
                        self.career_page_is(sid, t) <==> t == u@ by {
                        assert(self.career_page_is(sid, t) == mid_f.career_page_is(sid, t));
                    }
                },
                None => {
                    assert(self.career_rows == pre.career_rows);
                },
            }
            // captcha flags of other companies
            assert forall|s: i32, u: Seq<char>, f: bool|
                s != sid implies (#[trigger] self.website_captcha_is(s, u, f)
                <==> pre.website_captcha_is(s, u, f)) by {
                assert(self.website_captcha_is(s, u, f) <==> mid_f.website_captcha_is(s, u, f));
                assert(mid_f.website_captcha_is(s, u, f) == mid_c.website_captcha_is(s, u, f));
                assert(mid_c.website_captcha_is(s, u, f) <==> mid_w.website_captcha_is(s, u, f));
                assert(mid_w.website_captcha_is(s, u, f) == pre.website_captcha_is(s, u, f));
            }
            // captcha flags of the target company
            assert forall|u: Seq<char>, f: bool| #[trigger]
                mid_f.website_captcha_is(sid, u, f) <==> upsert_plain_flag(
                pre,
                company,
                sid,
                u,
                f,
            ) by {
                assert(mid_f.website_captcha_is(sid, u, f) == mid_c.website_captcha_is(sid, u, f));
                match company.websites {
                    Some(ws) => {
                        assert(mid_c.website_captcha_is(sid, u, f) <==> mid_w.website_captcha_is(
                            sid,
                            u,
                            f,
                        ) || (strings_have(ws@, u) && !mid_w.has_website(sid, u) && f == false));
                        assert(mid_w.website_captcha_is(sid, u, f) == pre.website_captcha_is(
                            sid,
                            u,
                            f,
                        ));
                        assert(mid_w.has_website(sid, u) == pre.has_website(sid, u));
                    },
                    None => {
                        assert(mid_c.website_rows == mid_w.website_rows);
                        assert(mid_c.website_captcha_is(sid, u, f) == pre.website_captcha_is(
                            sid,
                            u,
                            f,
                        ));
                    },
                }
            }
            match upsert_flag_target(company) {
                Some(tu) => {
                    assert(self.has_website(sid, tu.0) ==> self.website_captcha_is(
                        sid,
                        tu.0,
                        tu.1,
                    )) by {
                        assert(self.has_website(sid, tu.0) == mid_f.has_website(sid, tu.0));
                    }
                    assert forall|u: Seq<char>, f: bool|
                        u != tu.0 implies (#[trigger] self.website_captcha_is(sid, u, f)
                        <==> upsert_plain_flag(pre, company, sid, u, f)) by {
                        assert(self.website_captcha_is(sid, u, f) <==> mid_f.website_captcha_is(
                            sid,
                            u,
                            f,
                        ));
                    }
                },
                None => {
                    assert(self.website_rows == mid_f.website_rows);
                    assert forall|u: Seq<char>, f: bool| #[trigger]
                        self.website_captcha_is(sid, u, f) <==> upsert_plain_flag(
                        pre,
                        company,
                        sid,
                        u,
                        f,
                    ) by {
                        assert(self.website_captcha_is(sid, u, f) == mid_f.website_captcha_is(
                            sid,
                            u,
                            f,
                        ));
                    }
                },
            }
        }
        Ok(sid)
    }


    /// Remove every company that has no alias: such a record is orphaned and
    /// invisible to consumers. Companies with at least one alias, and all of
    /// their facts, stay exactly as they are.
    pub fn clean_sids(&mut self)
        requires
            old(self).wf(),
        ensures
            final(self).wf(),
            final(self).next_sid == old(self).next_sid,
            forall|s: i32|
                #[trigger] final(self).company_exists(s) <==> old(self).company_exists(s) && old(
                    self,
                ).has_some_alias(s),
            forall|s: i32, t: Seq<char>|
                #[trigger] final(self).has_alias(s, t) <==> old(self).has_alias(s, t),
            forall|s: i32|
                #[trigger] final(self).has_some_alias(s) <==> old(self).has_some_alias(s),
            forall|c: i32, s: i32|
                #[trigger] final(self).has_cik(c, s) <==> old(self).has_cik(c, s) && old(
                    self,
                ).has_some_alias(s),
            forall|s: i32, t: Seq<char>|
                #[trigger] final(self).has_tag(s, t) <==> old(self).has_tag(s, t) && old(
                    self,
                ).has_some_alias(s),
            forall|s: i32, u: Seq<char>|
                #[trigger] final(self).has_website(s, u) <==> old(self).has_website(s, u) && old(
                    self,
                ).has_some_alias(s),
            forall|s: i32|
                #[trigger] final(self).discovered(s) <==> old(self).discovered(s) && old(
                    self,
                ).has_some_alias(s),
            forall|s: i32, u: Seq<char>, f: bool|
                #[trigger] final(self).website_captcha_is(s, u, f) <==> old(
                    self,
                ).website_captcha_is(s, u, f) && old(self).has_some_alias(s),
            forall|s: i32, t: Seq<char>|
                #[trigger] final(self).career_page_is(s, t) <==> old(self).career_page_is(s, t)
                    && old(self).has_some_alias(s),
            forall|s: i32|
                #[trigger] final(self).has_career_page(s) <==> old(self).has_career_page(s) && old(
                    self,
                ).has_some_alias(s),
    {
        let ghost pre = *old(self);
        let mut orphans: Vec<i32> = Vec::new();
        let mut i: usize = 0;
        while i < self.sids.len()
            invariant
                *self == pre,
                pre.wf(),
                i <= self.sids@.len(),
                forall|k: int|
                    0 <= k < orphans@.len() ==> !pre.has_some_alias(#[trigger] orphans@[k])
                        && pre.company_exists(orphans@[k]),
                forall|k: int|
                    0 <= k < i ==> pre.has_some_alias(#[trigger] pre.sids@[k])
                        || orphans@.contains(pre.sids@[k]),
            decreases self.sids@.len() - i,
        {
            let sid = self.sids[i];
            let ghost orphans_before = orphans@;
            proof {
                lemma_sid_push(orphans_before, sid);
            }
            if !fact_sid_contains(&self.alias_rows, sid) {
                orphans.push(sid);
                assert(orphans@ == orphans_before.push(sid));
                assert(pre.company_exists(sid)) by {
                    assert(pre.sids@[i as int] == sid);
                }
                assert forall|k: int|
                    0 <= k < i + 1 implies pre.has_some_alias(#[trigger] pre.sids@[k])
                    || orphans@.contains(pre.sids@[k]) by {
                    if k < i as int && orphans_before.contains(pre.sids@[k]) {
                        assert(orphans@.contains(pre.sids@[k]));
                    }
                    if k == i as int {
                        assert(orphans@.contains(sid));
                    }
                }
            } else {
                assert(pre.has_some_alias(pre.sids@[i as int]));
            }
            i += 1;
        }
        let ghost orph = orphans@;
        // the orphan list holds exactly the live companies without an alias
        assert forall|s: i32|
            orph.contains(s) <==> pre.company_exists(s) && !pre.has_some_alias(s) by {
            if orph.contains(s) {
                let k = choose|k: int| 0 <= k < orph.len() && #[trigger] orph[k] == s;
            }
            if pre.company_exists(s) && !pre.has_some_alias(s) {
                let k = choose|k: int| 0 <= k < pre.sids@.len() && #[trigger] pre.sids@[k] == s;
            }
        }
        // delete them one by one
        let mut j: usize = 0;
        while j < orphans.len()
            invariant
                self.wf(),
                j <= orphans@.len(),
                orphans@ == orph,
                self.next_sid == pre.next_sid,
                forall|s: i32|
                    orph.contains(s) <==> pre.company_exists(s) && !pre.has_some_alias(s),
                forall|s: i32|
                    #[trigger] self.company_exists(s) <==> pre.company_exists(s)
                        && !orph.take(j as int).contains(s),
                forall|s: i32, t: Seq<char>|
                    #[trigger] self.has_alias(s, t) <==> pre.has_alias(s, t) && !orph.take(
                        j as int,
                    ).contains(s),
                forall|s: i32|
                    #[trigger] self.has_some_alias(s) <==> pre.has_some_alias(s) && !orph.take(
                        j as int,
                    ).contains(s),
                forall|c: i32, s: i32|
                    #[trigger] self.has_cik(c, s) <==> pre.has_cik(c, s) && !orph.take(
                        j as int,
                    ).contains(s),
                forall|s: i32, t: Seq<char>|
                    #[trigger] self.has_tag(s, t) <==> pre.has_tag(s, t) && !orph.take(
                        j as int,
                    ).contains(s),
                forall|s: i32, u: Seq<char>|
                    #[trigger] self.has_website(s, u) <==> pre.has_website(s, u) && !orph.take(
                        j as int,
                    ).contains(s),
                forall|s: i32|
                    #[trigger] self.discovered(s) <==> pre.discovered(s) && !orph.take(
                        j as int,
                    ).contains(s),
                forall|s: i32, u: Seq<char>, f: bool|
                    #[trigger] self.website_captcha_is(s, u, f) <==> pre.website_captcha_is(
                        s,
                        u,
                        f,
                    ) && !orph.take(j as int).contains(s),
                forall|s: i32, t: Seq<char>|
                    #[trigger] self.career_page_is(s, t) <==> pre.career_page_is(s, t)
                        && !orph.take(j as int).contains(s),
                forall|s: i32|
                    #[trigger] self.has_career_page(s) <==> pre.has_career_page(s) && !orph.take(
                        j as int,
                    ).contains(s),
            decreases orphans@.len() - j,
        {
            let target = orphans[j];
            proof {
                lemma_sid_take_succ(orph, j as int);
            }
            self.delete_company(target);
            j += 1;
        }
        proof {
            lemma_sid_take_all(orph);
            // with the orphans gone, what survives is what has an alias
            assert forall|s: i32, t: Seq<char>| #[trigger]
                self.has_alias(s, t) <==> pre.has_alias(s, t) by {
                if pre.has_alias(s, t) {
                    lemma_fact_has_sid(pre.alias_rows@, s, t);
                }
            }
            assert forall|s: i32| #[trigger]
                self.has_some_alias(s) <==> pre.has_some_alias(s) by {}
            assert forall|c: i32, s: i32| #[trigger]
                self.has_cik(c, s) <==> pre.has_cik(c, s) && pre.has_some_alias(s) by {
                if pre.has_cik(c, s) {
                    lemma_cik_maps_keys(pre.cik_rows@, c, s);
                }
            }
            assert forall|s: i32, t: Seq<char>| #[trigger]
                self.has_tag(s, t) <==> pre.has_tag(s, t) && pre.has_some_alias(s) by {
                if pre.has_tag(s, t) {
                    lemma_fact_has_sid(pre.tag_rows@, s, t);
                }
            }
            assert forall|s: i32, u: Seq<char>| #[trigger]
                self.has_website(s, u) <==> pre.has_website(s, u) && pre.has_some_alias(s) by {
                if pre.has_website(s, u) {
                    lemma_web_has_sid(pre.website_rows@, s, u);
                }
            }
            assert forall|s: i32, u: Seq<char>, f: bool| #[trigger]
                self.website_captcha_is(s, u, f) <==> pre.website_captcha_is(s, u, f)
                && pre.has_some_alias(s) by {
                if pre.website_captcha_is(s, u, f) {
                    lemma_web_flag_has(pre.website_rows@, s, u, f);
                    lemma_web_has_sid(pre.website_rows@, s, u);
                }
            }
            assert forall|s: i32, t: Seq<char>| #[trigger]
                self.career_page_is(s, t) <==> pre.career_page_is(s, t)
                && pre.has_some_alias(s) by {
                if pre.career_page_is(s, t) {
                    lemma_fact_has_sid(pre.career_rows@, s, t);
                }
            }
        }
    }


    /// Every alias of the company misses every given substring,
    /// case-insensitively: the company is a removal candidate.
    pub open spec fn alias_all_miss(self, sid: i32, filter: Seq<String>) -> bool {
        forall|t: Seq<char>| self.has_alias(sid, t) ==> !filter_hits(filter, t)
    }

    /// Identify the companies none of whose aliases contains any of the
    /// given substrings (case-insensitively): likely-noise entries, listed
    /// for a separate, explicit deletion step. Companies without an alias are
    /// listed too. This call reads only; it deletes nothing.
    pub fn filter_companies_alias(&self, filter: &Vec<String>) -> (r: Vec<i32>)
        requires
            self.wf(),
        ensures
            forall|s: i32|
                #[trigger] r@.contains(s) <==> self.company_exists(s) && self.alias_all_miss(
                    s,
                    filter@,
                ),
            nums_unique(r@),
    {
        let mut out: Vec<i32> = Vec::new();
        let mut i: usize = 0;
        while i < self.sids.len()
            invariant
                i <= self.sids@.len(),
                self.wf(),
                nums_unique(out@),
                forall|s: i32|
                    #[trigger] out@.contains(s) ==> self.company_exists(s) && self.alias_all_miss(
                        s,
                        filter@,
                    ),
                forall|s: i32|
                    #[trigger] out@.contains(s) ==> exists|k: int|
                        0 <= k < i && (#[trigger] self.sids@[k]) == s,
                forall|k: int|
                    0 <= k < i && self.alias_all_miss(#[trigger] self.sids@[k], filter@)
                        ==> out@.contains(self.sids@[k]),
            decreases self.sids@.len() - i,
        {
            let sid = self.sids[i];
            let ghost out_before = out@;
            proof {
                lemma_sid_push(out_before, sid);
            }
            if all_facts_miss(&self.alias_rows, sid, filter) {
                proof {
                    assert(!out_before.contains(sid)) by {
                        if out_before.contains(sid) {
                            let k = choose|k: int|
                                0 <= k < i && (#[trigger] self.sids@[k]) == sid;
                            assert(self.sids@[i as int] == sid);
                        }
                    }
                }
                out.push(sid);
                assert(out@ == out_before.push(sid));
                assert(self.company_exists(sid)) by {
                    assert(self.sids@[i as int] == sid);
                }
                assert(nums_unique(out@)) by {
                    assert forall|a: int, b: int| 0 <= a < b < out@.len() implies out@[a]
                        != out@[b] by {
                        if b == out@.len() - 1 {
                            assert(out@[a] == out_before[a]);
                            if out@[a] == sid {
                                assert(out_before.contains(sid)) by {
                                    assert(out_before[a] == sid);
                                }
                            }
                        } else {
                            assert(out@[a] == out_before[a] && out@[b] == out_before[b]);
                        }
                    }
                }
                assert forall|s: i32| #[trigger] out@.contains(s) implies exists|k: int|
                    0 <= k <= i && (#[trigger] self.sids@[k]) == s by {
                    if out_before.contains(s) {
                        let k = choose|k: int| 0 <= k < i && (#[trigger] self.sids@[k]) == s;
                    } else {
                        assert(self.sids@[i as int] == s);
                    }
                }
            }
            i += 1;
        }
        assert forall|s: i32|
            #[trigger] out@.contains(s) <==> self.company_exists(s) && self.alias_all_miss(
            s,
            filter@,
        ) by {
            if self.company_exists(s) && self.alias_all_miss(s, filter@) {
                let k = choose|k: int|
                    0 <= k < self.sids@.len() && (#[trigger] self.sids@[k]) == s;
            }
        }
        out
    }

    /// A company that carries this alias, if any does.
    pub fn get_sid_from_alias(&self, alias: &String) -> (r: Option<i32>)
        ensures
            match r {
                Some(sid) => self.has_alias(sid, alias@),
                None => forall|s: i32| !self.has_alias(s, alias@),
            },
    {
        fact_lookup_sid(&self.alias_rows, alias)
    }
}


/// One of the given substrings occurs, case-insensitively, in the text.
pub open spec fn filter_hits(filter: Seq<String>, t: Seq<char>) -> bool {
    exists|k: int| 0 <= k < filter.len() && contains_ci(t, #[trigger] filter[k]@)
}

/// Whether any of the given substrings occurs in the text.
fn text_hits_filter(text: &String, filter: &Vec<String>) -> (b: bool)
    ensures
        b == filter_hits(filter@, text@),
{
    let mut k: usize = 0;
    while k < filter.len()
        invariant
            k <= filter@.len(),
            forall|m: int| 0 <= m < k ==> !contains_ci(text@, #[trigger] filter@[m]@),
        decreases filter@.len() - k,
    {
        if str_contains_ci(text.as_str(), filter[k].as_str()) {
            assert(contains_ci(text@, filter@[k as int]@));
            return true;
        }
        k += 1;
    }
    false
}

/// Whether every fact of `sid` in the table misses every given substring.
fn all_facts_miss(rows: &Vec<FactRow>, sid: i32, filter: &Vec<String>) -> (b: bool)
    ensures
        b == (forall|t: Seq<char>| fact_has(rows@, sid, t) ==> !filter_hits(filter@, t)),
{
    let mut j: usize = 0;
    while j < rows.len()
        invariant
            j <= rows@.len(),
            forall|k: int|
                0 <= k < j && rows@[k].sid == sid ==> !filter_hits(filter@, #[trigger] rows@[k].text@),
        decreases rows@.len() - j,
    {
        if rows[j].sid == sid {
            if text_hits_filter(&rows[j].text, filter) {
                proof {
                    assert(fact_has(rows@, sid, rows@[j as int].text@)) by {
                        assert(rows@[j as int].sid == sid);
                    }
                }
                return false;
            }
        }
        j += 1;
    }
    assert forall|t: Seq<char>| fact_has(rows@, sid, t) implies !filter_hits(filter@, t) by {
        let k = choose|k: int| 0 <= k < rows@.len() && rows@[k].sid == sid && rows@[k].text@ == t;
    }
    true
}

// ------------------------------------------------------------------------
// the transition predicates that the laws compose

/// What `add_alias(sid, alias)` does: the alias set of `sid` grows by the
/// alias, and nothing else changes.
pub open spec fn alias_add_post(
    pre: CompanyDataStore,
    post: CompanyDataStore,
    sid: i32,
    alias: Seq<char>,
) -> bool {
    &&& post.wf()
    &&& post.next_sid == pre.next_sid
    &&& post.sids == pre.sids
    &&& post.cik_rows == pre.cik_rows
    &&& post.tag_rows == pre.tag_rows
    &&& post.website_rows == pre.website_rows
    &&& post.career_rows == pre.career_rows
    &&& forall|s: i32, t: Seq<char>|
        #[trigger] post.has_alias(s, t) <==> pre.has_alias(s, t) || (s == sid && t == alias)
    &&& forall|s: i32|
        #[trigger] post.has_some_alias(s) <==> pre.has_some_alias(s) || s == sid
}

/// What `add_website(sid, url, f)` does: the website set of `sid` grows by
/// the url, a fresh url carries the flag `f`, stored flags stay, and nothing
/// else changes.
pub open spec fn website_add_post(
    pre: CompanyDataStore,
    post: CompanyDataStore,
    sid: i32,
    url: Seq<char>,
    f: bool,
) -> bool {
    &&& post.wf()
    &&& post.next_sid == pre.next_sid
    &&& post.sids == pre.sids
    &&& post.cik_rows == pre.cik_rows
    &&& post.alias_rows == pre.alias_rows
    &&& post.tag_rows == pre.tag_rows
    &&& post.career_rows == pre.career_rows
    &&& forall|s: i32, u: Seq<char>|
        #[trigger] post.has_website(s, u) <==> pre.has_website(s, u) || (s == sid && u == url)
    &&& forall|s: i32| #[trigger] post.discovered(s) <==> pre.discovered(s) || s == sid
    &&& forall|s: i32, u: Seq<char>, f2: bool|
        #[trigger] post.website_captcha_is(s, u, f2) <==> pre.website_captcha_is(s, u, f2) || (
        !pre.has_website(sid, url) && s == sid && u == url && f2 == f)
    &&& pre.has_website(sid, url) ==> post.website_rows@ == pre.website_rows@
}

/// What `update_captcha_status(sid, url, f)` does: the stored websites stay
/// exactly as they are, the flag of (sid, url) becomes `f` if that pair is
/// stored, and no other flag changes.
pub open spec fn captcha_set_post(
    pre: CompanyDataStore,
    post: CompanyDataStore,
    sid: i32,
    url: Seq<char>,
    f: bool,
) -> bool {
    &&& post.wf()
    &&& post.next_sid == pre.next_sid
    &&& post.sids == pre.sids
    &&& post.cik_rows == pre.cik_rows
    &&& post.alias_rows == pre.alias_rows
    &&& post.tag_rows == pre.tag_rows
    &&& post.career_rows == pre.career_rows
    &&& forall|s: i32, u: Seq<char>|
        #[trigger] post.has_website(s, u) <==> pre.has_website(s, u)
    &&& forall|s: i32| #[trigger] post.discovered(s) <==> pre.discovered(s)
    &&& forall|s: i32, u: Seq<char>, f2: bool|
        !(s == sid && u == url) ==> (#[trigger] post.website_captcha_is(s, u, f2)
            <==> pre.website_captcha_is(s, u, f2))
    &&& pre.has_website(sid, url) ==> post.website_captcha_is(sid, url, f)
    &&& pre.has_website(sid, url) ==> (forall|f2: bool|
        #[trigger] post.website_captcha_is(sid, url, f2) ==> f2 == f)
    &&& !pre.has_website(sid, url) ==> post.website_rows@ == pre.website_rows@
}


/// The captcha update an upsert performs, if any: a supplied captcha flag
/// applies to the supplied career page url.
pub open spec fn upsert_flag_target(c: ProcessedCompany) -> Option<(Seq<char>, bool)> {
    match c.career_page {
        Some(u) => match c.has_captcha {
            Some(f) => Some((u@, f)),
            None => None,
        },
        None => None,
    }
}

/// The captcha flag of a website of the upserted company when no captcha
/// update applies to it: a stored website keeps its flag, a freshly supplied
/// one starts without captcha.
pub open spec fn upsert_plain_flag(
    pre: CompanyDataStore,
    c: ProcessedCompany,
    sid: i32,
    u: Seq<char>,
    f: bool,
) -> bool {
    pre.website_captcha_is(sid, u, f) || (!pre.has_website(sid, u) && (match c.websites {
        Some(ws) => strings_have(ws@, u),
        None => false,
    }) && f == false)
}

/// What `add_company(c)` does: resolve the target company through the
/// natural key (or create one), then merge every supplied fact in, with set
/// union semantics throughout.
pub open spec fn upsert_post(
    pre: CompanyDataStore,
    post: CompanyDataStore,
    c: ProcessedCompany,
    sid: i32,
) -> bool {
    &&& post.wf()
    &&& post.company_exists(sid)
    &&& forall|s: i32| #[trigger] post.company_exists(s) <==> pre.company_exists(s) || s == sid
    &&& (match c.cik {
        Some(k) => {
            &&& (if pre.cik_known(k) {
                pre.has_cik(k, sid) && post.next_sid == pre.next_sid
            } else {
                sid == pre.next_sid && post.next_sid == pre.next_sid + 1
            })
            &&& post.has_cik(k, sid)
            &&& forall|c2: i32, s2: i32|
                #[trigger] post.has_cik(c2, s2) <==> pre.has_cik(c2, s2) || (c2 == k && s2 == sid)
        },
        None => {
            &&& sid == pre.next_sid
            &&& post.next_sid == pre.next_sid + 1
            &&& forall|c2: i32, s2: i32| #[trigger] post.has_cik(c2, s2) <==> pre.has_cik(c2, s2)
        },
    })
    &&& forall|s: i32, t: Seq<char>|
        #[trigger] post.has_alias(s, t) <==> pre.has_alias(s, t) || (s == sid && strings_have(
            c.company_aliases@,
            t,
        ))
    &&& (match c.tags {
        Some(ts) => forall|s: i32, t: Seq<char>|
            #[trigger] post.has_tag(s, t) <==> pre.has_tag(s, t) || (s == sid && strings_have(
                ts@,
                t,
            )),
        None => forall|s: i32, t: Seq<char>| #[trigger] post.has_tag(s, t) <==> pre.has_tag(s, t),
    })
    &&& (match c.websites {
        Some(ws) => forall|s: i32, u: Seq<char>|
            #[trigger] post.has_website(s, u) <==> pre.has_website(s, u) || (s == sid
                && strings_have(ws@, u)),
        None => forall|s: i32, u: Seq<char>|
            #[trigger] post.has_website(s, u) <==> pre.has_website(s, u),
    })
    &&& (match c.career_page {
        Some(u) => {
            &&& forall|s: i32|
                #[trigger] post.has_career_page(s) <==> pre.has_career_page(s) || s == sid
            &&& forall|s: i32, t: Seq<char>|
                s != sid ==> (#[trigger] post.career_page_is(s, t) <==> pre.career_page_is(s, t))
            &&& forall|t: Seq<char>| #[trigger] post.career_page_is(sid, t) <==> t == u@
        },
        None => forall|s: i32, t: Seq<char>|
            #[trigger] post.career_page_is(s, t) <==> pre.career_page_is(s, t),
    })
    &&& forall|s: i32, u: Seq<char>, f: bool|
        s != sid ==> (#[trigger] post.website_captcha_is(s, u, f) <==> pre.website_captcha_is(
            s,
            u,
            f,
        ))
    &&& (match upsert_flag_target(c) {
        Some(tu) => {
            &&& post.has_website(sid, tu.0) ==> post.website_captcha_is(sid, tu.0, tu.1)
            &&& post.has_website(sid, tu.0) ==> (forall|f2: bool|
                #[trigger] post.website_captcha_is(sid, tu.0, f2) ==> f2 == tu.1)
            &&& forall|u: Seq<char>, f: bool|
                u != tu.0 ==> (#[trigger] post.website_captcha_is(sid, u, f) <==> upsert_plain_flag(
                    pre,
                    c,
                    sid,
                    u,
                    f,
                ))
        },
        None => forall|u: Seq<char>, f: bool|
            #[trigger] post.website_captcha_is(sid, u, f) <==> upsert_plain_flag(pre, c, sid, u, f),
    })
}

/// What `delete_company(sid)` does: the company and every fact of it are
/// gone, and every other company keeps exactly its facts.
pub open spec fn delete_post(pre: CompanyDataStore, post: CompanyDataStore, sid: i32) -> bool {
    &&& post.wf()
    &&& post.next_sid == pre.next_sid
    &&& forall|s: i32|
        #[trigger] post.company_exists(s) <==> pre.company_exists(s) && s != sid
    &&& forall|c: i32, s: i32| #[trigger] post.has_cik(c, s) <==> pre.has_cik(c, s) && s != sid
    &&& forall|c: i32|
        #[trigger] post.cik_known(c) <==> pre.cik_known(c) && !pre.has_cik(c, sid)
    &&& forall|s: i32| #[trigger] post.sid_has_cik(s) <==> pre.sid_has_cik(s) && s != sid
    &&& forall|s: i32, t: Seq<char>|
        #[trigger] post.has_alias(s, t) <==> pre.has_alias(s, t) && s != sid
    &&& forall|s: i32| #[trigger] post.has_some_alias(s) <==> pre.has_some_alias(s) && s != sid
    &&& forall|s: i32, t: Seq<char>| #[trigger] post.has_tag(s, t) <==> pre.has_tag(s, t) && s != sid
    &&& forall|s: i32| #[trigger] post.has_some_tag(s) <==> pre.has_some_tag(s) && s != sid
    &&& forall|s: i32, u: Seq<char>|
        #[trigger] post.has_website(s, u) <==> pre.has_website(s, u) && s != sid
    &&& forall|s: i32| #[trigger] post.discovered(s) <==> pre.discovered(s) && s != sid
    &&& forall|s: i32, u: Seq<char>, f: bool|
        #[trigger] post.website_captcha_is(s, u, f) <==> pre.website_captcha_is(s, u, f) && s
            != sid
    &&& forall|s: i32, t: Seq<char>|
        #[trigger] post.career_page_is(s, t) <==> pre.career_page_is(s, t) && s != sid
    &&& forall|s: i32| #[trigger] post.has_career_page(s) <==> pre.has_career_page(s) && s != sid
}

} // verus!
