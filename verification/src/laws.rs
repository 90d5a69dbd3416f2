//! The store's laws: what composing its operations guarantees, proved once
//! and for all over the transition predicates that the operations ensure.

use vstd::prelude::*;

use crate::company::ProcessedCompany;
use crate::store::CompanyDataStore;
use crate::store::alias_add_post;
use crate::store::captcha_set_post;
use crate::store::delete_post;
use crate::store::upsert_post;
use crate::store::website_add_post;
use crate::tables::lemma_cik_maps_functional;
use crate::tables::lemma_cik_maps_keys;
use crate::tables::lemma_fact_count;
use crate::tables::lemma_fact_has_sid;
use crate::tables::lemma_web_flag_has;
use crate::tables::strings_have;

verus! {

/// Upserting twice under one regulatory id stores exactly one company: the
/// second call resolves to the same surrogate id, the stored alias set is
/// the union of both calls' aliases, and no other company appears.
pub proof fn lemma_upsert_twice_one_company(
    s0: CompanyDataStore,
    s1: CompanyDataStore,
    s2: CompanyDataStore,
    c1: ProcessedCompany,
    c2: ProcessedCompany,
    sid1: i32,
    sid2: i32,
    k: i32,
)
    requires
        upsert_post(s0, s1, c1, sid1),
        upsert_post(s1, s2, c2, sid2),
        c1.cik == Some(k),
        c2.cik == Some(k),
    ensures
        sid2 == sid1,
        forall|s: i32| #[trigger] s2.company_exists(s) <==> s0.company_exists(s) || s == sid1,
        forall|t: Seq<char>|
            #[trigger] s2.has_alias(sid1, t) <==> s0.has_alias(sid1, t) || strings_have(
                c1.company_aliases@,
                t,
            ) || strings_have(c2.company_aliases@, t),
{
    // the first upsert records the mapping; the second finds it
    assert(s1.has_cik(k, sid1));
    lemma_cik_maps_keys(s1.cik_rows@, k, sid1);
    assert(s1.cik_known(k));
    assert(s1.has_cik(k, sid2));
    lemma_cik_maps_functional(s1.cik_rows@, k, sid1, sid2);
    assert forall|s: i32| #[trigger]
        s2.company_exists(s) <==> s0.company_exists(s) || s == sid1 by {
        assert(s1.company_exists(s) <==> s0.company_exists(s) || s == sid1);
    }
    assert forall|t: Seq<char>| #[trigger]
        s2.has_alias(sid1, t) <==> s0.has_alias(sid1, t) || strings_have(c1.company_aliases@, t)
        || strings_have(c2.company_aliases@, t) by {
        assert(s1.has_alias(sid1, t) <==> s0.has_alias(sid1, t) || strings_have(
            c1.company_aliases@,
            t,
        ));
    }
}

/// A deleted company is invisible: it is not stored, and every fact query
/// about it comes back empty.
pub proof fn lemma_deleted_company_invisible(
    pre: CompanyDataStore,
    post: CompanyDataStore,
    sid: i32,
)
    requires
        delete_post(pre, post, sid),
    ensures
        !post.company_exists(sid),
        !post.sid_has_cik(sid),
        forall|c: i32| !post.has_cik(c, sid),
        !post.has_some_alias(sid),
        forall|t: Seq<char>| !post.has_alias(sid, t),
        !post.has_some_tag(sid),
        forall|t: Seq<char>| !post.has_tag(sid, t),
        !post.discovered(sid),
        forall|u: Seq<char>| !post.has_website(sid, u),
        forall|u: Seq<char>, f: bool| !post.website_captcha_is(sid, u, f),
        !post.has_career_page(sid),
        forall|t: Seq<char>| !post.career_page_is(sid, t),
{
}

/// More generally, a company the store does not hold has no facts at all:
/// the foreign keys of `wf` leave nothing dangling.
pub proof fn lemma_absent_company_has_no_facts(s: CompanyDataStore, sid: i32)
    requires
        s.wf(),
        !s.company_exists(sid),
    ensures
        !s.sid_has_cik(sid),
        !s.has_some_alias(sid),
        forall|t: Seq<char>| !s.has_alias(sid, t),
        !s.has_some_tag(sid),
        forall|t: Seq<char>| !s.has_tag(sid, t),
        !s.discovered(sid),
        forall|u: Seq<char>| !s.has_website(sid, u),
        forall|u: Seq<char>, f: bool| !s.website_captcha_is(sid, u, f),
        !s.has_career_page(sid),
        forall|t: Seq<char>| !s.career_page_is(sid, t),
{
    assert forall|t: Seq<char>| !s.has_alias(sid, t) by {
        if s.has_alias(sid, t) {
            lemma_fact_has_sid(s.alias_rows@, sid, t);
        }
    }
    assert forall|t: Seq<char>| !s.has_tag(sid, t) by {
        if s.has_tag(sid, t) {
            lemma_fact_has_sid(s.tag_rows@, sid, t);
        }
    }
    assert forall|u: Seq<char>| !s.has_website(sid, u) by {
        if s.has_website(sid, u) {
            crate::tables::lemma_web_has_sid(s.website_rows@, sid, u);
        }
    }
    assert forall|u: Seq<char>, f: bool| !s.website_captcha_is(sid, u, f) by {
        if s.website_captcha_is(sid, u, f) {
            lemma_web_flag_has(s.website_rows@, sid, u, f);
        }
    }
    assert forall|t: Seq<char>| !s.career_page_is(sid, t) by {
        if s.career_page_is(sid, t) {
            lemma_fact_has_sid(s.career_rows@, sid, t);
        }
    }
}

/// Attaching a website and then raising its captcha flag reports that flag
/// as raised, and changes no other website's flag anywhere in the store.
pub proof fn lemma_captcha_update_is_local(
    s0: CompanyDataStore,
    s1: CompanyDataStore,
    s2: CompanyDataStore,
    sid: i32,
    url: Seq<char>,
)
    requires
        website_add_post(s0, s1, sid, url, false),
        captcha_set_post(s1, s2, sid, url, true),
    ensures
        s2.has_website(sid, url),
        s2.website_captcha_is(sid, url, true),
        forall|f: bool| #[trigger] s2.website_captcha_is(sid, url, f) ==> f == true,
        forall|s: i32, u: Seq<char>, f: bool|
            !(s == sid && u == url) ==> (#[trigger] s2.website_captcha_is(s, u, f)
                <==> s0.website_captcha_is(s, u, f)),
{
    assert(s1.has_website(sid, url));
    assert(s2.has_website(sid, url)) by {
        assert(s2.has_website(sid, url) <==> s1.has_website(sid, url));
    }
    assert forall|s: i32, u: Seq<char>, f: bool|
        !(s == sid && u == url) implies (#[trigger] s2.website_captcha_is(s, u, f)
        <==> s0.website_captcha_is(s, u, f)) by {
        assert(s2.website_captcha_is(s, u, f) <==> s1.website_captcha_is(s, u, f));
        assert(s1.website_captcha_is(s, u, f) <==> s0.website_captcha_is(s, u, f) || (
        !s0.has_website(sid, url) && s == sid && u == url && f == false));
    }
}

/// Attaching the same alias twice leaves exactly one row carrying it: the
/// second attach is a no-op on the alias set, and set semantics make the
/// stored count one.
pub proof fn lemma_add_alias_idempotent(
    s0: CompanyDataStore,
    s1: CompanyDataStore,
    s2: CompanyDataStore,
    sid: i32,
    alias: Seq<char>,
)
    requires
        alias_add_post(s0, s1, sid, alias),
        alias_add_post(s1, s2, sid, alias),
    ensures
        s2.alias_count(sid, alias) == 1,
        forall|s: i32, t: Seq<char>|
            #[trigger] s2.has_alias(s, t) <==> s0.has_alias(s, t) || (s == sid && t == alias),
{
    assert(s2.has_alias(sid, alias));
    lemma_fact_count(s2.alias_rows@, sid, alias);
    assert forall|s: i32, t: Seq<char>| #[trigger]
        s2.has_alias(s, t) <==> s0.has_alias(s, t) || (s == sid && t == alias) by {
        assert(s1.has_alias(s, t) <==> s0.has_alias(s, t) || (s == sid && t == alias));
    }
}

} // verus!
