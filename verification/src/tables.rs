//! Relational primitives of the directory store.
//!
//! Each fact table of the store is a vector of rows. The spec functions here
//! say what a sequence of rows relates (which pairs it holds), and the
//! executable helpers are the verified scans, inserts, updates and cascading
//! deletes that the store's operations are built from. All tables have set
//! semantics: inserting a pair that is already present is a no-op.

use vstd::prelude::*;

verus! {

/// One row of the natural-key table: a regulatory id and the surrogate id it
/// maps to.
pub struct CikRow {
    pub cik: i32,
    pub sid: i32,
}

/// One row of a (sid, text) fact table: an alias, a tag, or a career page.
pub struct FactRow {
    pub sid: i32,
    pub text: String,
}

/// One row of the website table: a url attached to a company, with its
/// captcha flag.
pub struct WebsiteRow {
    pub sid: i32,
    pub url: String,
    pub has_captcha: bool,
}

// ------------------------------------------------------------------------
// (sid, text) fact tables: spec level

/// The table holds `text` as a fact of company `sid`.
pub open spec fn fact_has(rows: Seq<FactRow>, sid: i32, text: Seq<char>) -> bool {
    exists|i: int| 0 <= i < rows.len() && rows[i].sid == sid && rows[i].text@ == text
}

/// The table holds some fact of company `sid`.
pub open spec fn fact_sid_has(rows: Seq<FactRow>, sid: i32) -> bool {
    exists|i: int| 0 <= i < rows.len() && rows[i].sid == sid
}

/// No (sid, text) pair occurs twice: set semantics.
pub open spec fn facts_unique(rows: Seq<FactRow>) -> bool {
    forall|i: int, j: int|
        0 <= i < j < rows.len() ==> !(rows[i].sid == rows[j].sid && rows[i].text@ == rows[j].text@)
}

/// No sid occurs twice: at most one fact per company (career pages).
pub open spec fn fact_sids_unique(rows: Seq<FactRow>) -> bool {
    forall|i: int, j: int| 0 <= i < j < rows.len() ==> rows[i].sid != rows[j].sid
}

/// How many rows carry the pair (sid, text).
pub open spec fn fact_count(rows: Seq<FactRow>, sid: i32, text: Seq<char>) -> nat
    decreases rows.len(),
{
    if rows.len() == 0 {
        0
    } else {
        (if rows.last().sid == sid && rows.last().text@ == text {
            1nat
        } else {
            0nat
        }) + fact_count(rows.drop_last(), sid, text)
    }
}

// ------------------------------------------------------------------------
// (sid, text) fact tables: lemmas

proof fn lemma_fact_push(rows: Seq<FactRow>, row: FactRow)
    ensures
        forall|s: i32, t: Seq<char>|
            #[trigger] fact_has(rows.push(row), s, t) <==> fact_has(rows, s, t) || (s == row.sid
                && t == row.text@),
        forall|s: i32|
            #[trigger] fact_sid_has(rows.push(row), s) <==> fact_sid_has(rows, s) || s == row.sid,
{
    let pushed = rows.push(row);
    assert forall|s: i32, t: Seq<char>| #[trigger]
        fact_has(pushed, s, t) implies fact_has(rows, s, t) || (s == row.sid && t
        == row.text@) by {
        let i = choose|i: int| 0 <= i < pushed.len() && pushed[i].sid == s && pushed[i].text@ == t;
        if i < rows.len() {
            assert(rows[i].sid == s && rows[i].text@ == t);
        }
    }
    assert forall|s: i32, t: Seq<char>|
        fact_has(rows, s, t) || (s == row.sid && t == row.text@) implies #[trigger] fact_has(
        pushed,
        s,
        t,
    ) by {
        if fact_has(rows, s, t) {
            let i = choose|i: int| 0 <= i < rows.len() && rows[i].sid == s && rows[i].text@ == t;
            assert(pushed[i].sid == s && pushed[i].text@ == t);
        } else {
            assert(pushed[rows.len() as int].sid == s && pushed[rows.len() as int].text@ == t);
        }
    }
    assert forall|s: i32| #[trigger] fact_sid_has(pushed, s) implies fact_sid_has(rows, s) || s
        == row.sid by {
        let i = choose|i: int| 0 <= i < pushed.len() && pushed[i].sid == s;
        if i < rows.len() {
            assert(rows[i].sid == s);
        }
    }
    assert forall|s: i32| fact_sid_has(rows, s) || s == row.sid implies #[trigger] fact_sid_has(
        pushed,
        s,
    ) by {
        if fact_sid_has(rows, s) {
            let i = choose|i: int| 0 <= i < rows.len() && rows[i].sid == s;
            assert(pushed[i].sid == s);
        } else {
            assert(pushed[rows.len() as int].sid == s);
        }
    }
}

proof fn lemma_fact_take_succ(rows: Seq<FactRow>, i: int)
    requires
        0 <= i < rows.len(),
    ensures
        forall|s: i32, t: Seq<char>|
            #[trigger] fact_has(rows.take(i + 1), s, t) <==> fact_has(rows.take(i), s, t) || (s
                == rows[i].sid && t == rows[i].text@),
        forall|s: i32|
            #[trigger] fact_sid_has(rows.take(i + 1), s) <==> fact_sid_has(rows.take(i), s) || s
                == rows[i].sid,
{
    assert(rows.take(i + 1) =~= rows.take(i).push(rows[i]));
    lemma_fact_push(rows.take(i), rows[i]);
}

/// A whole table is its own length-long prefix.
proof fn lemma_fact_take_all(rows: Seq<FactRow>)
    ensures
        rows.take(rows.len() as int) == rows,
{
    assert(rows.take(rows.len() as int) =~= rows);
}

/// Under set semantics, a pair that the table holds occurs exactly once, and
/// a pair it does not hold occurs zero times.
pub proof fn lemma_fact_count(rows: Seq<FactRow>, sid: i32, text: Seq<char>)
    requires
        facts_unique(rows),
    ensures
        fact_has(rows, sid, text) ==> fact_count(rows, sid, text) == 1,
        !fact_has(rows, sid, text) ==> fact_count(rows, sid, text) == 0,
    decreases rows.len(),
{
    if rows.len() == 0 {
        assert(!fact_has(rows, sid, text));
    } else {
        let prefix = rows.drop_last();
        let last = rows.last();
        assert(facts_unique(prefix)) by {
            assert forall|i: int, j: int| 0 <= i < j < prefix.len() implies !(prefix[i].sid
                == prefix[j].sid && prefix[i].text@ == prefix[j].text@) by {
                assert(rows[i] == prefix[i] && rows[j] == prefix[j]);
            }
        }
        lemma_fact_count(prefix, sid, text);
        if last.sid == sid && last.text@ == text {
            assert(fact_has(rows, sid, text)) by {
                assert(rows[rows.len() - 1].sid == sid && rows[rows.len() - 1].text@ == text);
            }
            assert(!fact_has(prefix, sid, text)) by {
                if fact_has(prefix, sid, text) {
                    let i = choose|i: int|
                        0 <= i < prefix.len() && prefix[i].sid == sid && prefix[i].text@ == text;
                    assert(rows[i] == prefix[i]);
                    assert(!(rows[i].sid == rows[rows.len() - 1].sid && rows[i].text@
                        == rows[rows.len() - 1].text@));
                }
            }
        } else {
            assert(fact_has(rows, sid, text) <==> fact_has(prefix, sid, text)) by {
                if fact_has(rows, sid, text) {
                    let i = choose|i: int|
                        0 <= i < rows.len() && rows[i].sid == sid && rows[i].text@ == text;
                    assert(i < rows.len() - 1);
                    assert(prefix[i].sid == sid && prefix[i].text@ == text);
                }
                if fact_has(prefix, sid, text) {
                    let i = choose|i: int|
                        0 <= i < prefix.len() && prefix[i].sid == sid && prefix[i].text@ == text;
                    assert(rows[i].sid == sid && rows[i].text@ == text);
                }
            }
        }
    }
}

// ------------------------------------------------------------------------
// (sid, text) fact tables: executable helpers

/// Copy one row.
fn clone_fact(r: &FactRow) -> (c: FactRow)
    ensures
        c == *r,
{
    FactRow { sid: r.sid, text: r.text.clone() }
}

/// Whether the table holds the pair (sid, text).
pub fn fact_contains(rows: &Vec<FactRow>, sid: i32, text: &String) -> (b: bool)
    ensures
        b == fact_has(rows@, sid, text@),
{
    let mut i: usize = 0;
    while i < rows.len()
        invariant
            i <= rows@.len(),
            forall|k: int| 0 <= k < i ==> !(rows@[k].sid == sid && rows@[k].text@ == text@),
        decreases rows@.len() - i,
    {
        if rows[i].sid == sid && rows[i].text == *text {
            return true;
        }
        i += 1;
    }
    false
}

/// Whether the table holds any fact of `sid`.
pub fn fact_sid_contains(rows: &Vec<FactRow>, sid: i32) -> (b: bool)
    ensures
        b == fact_sid_has(rows@, sid),
{
    let mut i: usize = 0;
    while i < rows.len()
        invariant
            i <= rows@.len(),
            forall|k: int| 0 <= k < i ==> rows@[k].sid != sid,
        decreases rows@.len() - i,
    {
        if rows[i].sid == sid {
            return true;
        }
        i += 1;
    }
    false
}

/// Attach the fact (sid, text); a no-op when it is already present.
pub fn fact_insert(rows: &mut Vec<FactRow>, sid: i32, text: &String)
    requires
        facts_unique(old(rows)@),
    ensures
        facts_unique(final(rows)@),
        forall|s: i32, t: Seq<char>|
            fact_has(final(rows)@, s, t) <==> fact_has(old(rows)@, s, t) || (s == sid && t
                == text@),
        forall|s: i32| fact_sid_has(final(rows)@, s) <==> fact_sid_has(old(rows)@, s) || s == sid,
{
    if fact_contains(rows, sid, text) {
        proof {
            let i = choose|i: int|
                0 <= i < rows@.len() && rows@[i].sid == sid && rows@[i].text@ == text@;
            assert(fact_sid_has(rows@, sid));
        }
        return ;
    }
    let ghost before = rows@;
    let row = FactRow { sid, text: text.clone() };
    proof {
        lemma_fact_push(before, row);
    }
    rows.push(row);
    assert(rows@ == before.push(row));
    assert(facts_unique(rows@)) by {
        assert forall|i: int, j: int| 0 <= i < j < rows@.len() implies !(rows@[i].sid
            == rows@[j].sid && rows@[i].text@ == rows@[j].text@) by {
            if j == rows@.len() - 1 {
                assert(rows@[i] == before[i]);
                if rows@[i].sid == sid && rows@[i].text@ == text@ {
                    assert(fact_has(before, sid, text@));
                }
            } else {
                assert(rows@[i] == before[i] && rows@[j] == before[j]);
            }
        }
    }
}

/// Set the unique fact of `sid` to `text` (career page: replace or attach).
pub fn fact_set_for_sid(rows: &mut Vec<FactRow>, sid: i32, text: &String)
    requires
        fact_sids_unique(old(rows)@),
    ensures
        fact_sids_unique(final(rows)@),
        forall|s: i32| fact_sid_has(final(rows)@, s) <==> fact_sid_has(old(rows)@, s) || s == sid,
        forall|s: i32, t: Seq<char>|
            s != sid ==> (fact_has(final(rows)@, s, t) <==> fact_has(old(rows)@, s, t)),
        forall|t: Seq<char>| fact_has(final(rows)@, sid, t) <==> t == text@,
{
    let ghost before = rows@;
    let mut i: usize = 0;
    while i < rows.len()
        invariant
            i <= rows@.len(),
            rows@ == before,
            before == old(rows)@,
            fact_sids_unique(before),
            forall|k: int| 0 <= k < i ==> before[k].sid != sid,
        decreases rows@.len() - i,
    {
        if rows[i].sid == sid {
            let row = FactRow { sid, text: text.clone() };
            let ghost idx = i as int;
            rows.set(i, row);
            proof {
                assert(rows@ == before.update(idx, row));
                lemma_fact_update_sid(before, idx, row);
                assert(fact_sid_has(before, sid)) by {
                    assert(before[idx].sid == sid);
                }
            }
            return ;
        }
        i += 1;
    }
    // sid has no row yet: attach one
    let row = FactRow { sid, text: text.clone() };
    proof {
        lemma_fact_push(before, row);
        assert(!fact_sid_has(before, sid));
    }
    rows.push(row);
    assert(rows@ == before.push(row));
    assert(fact_sids_unique(rows@)) by {
        assert forall|a: int, b: int| 0 <= a < b < rows@.len() implies rows@[a].sid
            != rows@[b].sid by {
            if b == rows@.len() - 1 {
                assert(rows@[a] == before[a]);
                if rows@[a].sid == sid {
                    assert(fact_sid_has(before, sid));
                }
            } else {
                assert(rows@[a] == before[a] && rows@[b] == before[b]);
            }
        }
    }
    assert forall|t: Seq<char>| #[trigger] fact_has(rows@, sid, t) implies t == text@ by {
        if fact_has(before, sid, t) {
            let k = choose|k: int| 0 <= k < before.len() && before[k].sid == sid && before[k].text@
                == t;
            assert(fact_sid_has(before, sid));
        }
    }
}

/// Replacing the row at `idx` by another row of the same sid keeps every
/// other company's facts and makes the new text that company's only fact.
proof fn lemma_fact_update_sid(before: Seq<FactRow>, idx: int, row: FactRow)
    requires
        0 <= idx < before.len(),
        fact_sids_unique(before),
        before[idx].sid == row.sid,
    ensures
        fact_sids_unique(before.update(idx, row)),
        forall|s: i32|
            #[trigger] fact_sid_has(before.update(idx, row), s) <==> fact_sid_has(before, s),
        forall|s: i32, t: Seq<char>|
            s != row.sid ==> (#[trigger] fact_has(before.update(idx, row), s, t) <==> fact_has(
                before,
                s,
                t,
            )),
        forall|t: Seq<char>|
            #[trigger] fact_has(before.update(idx, row), row.sid, t) <==> t == row.text@,
{
    let updated = before.update(idx, row);
    assert(fact_sids_unique(updated)) by {
        assert forall|a: int, b: int| 0 <= a < b < updated.len() implies updated[a].sid
            != updated[b].sid by {
            assert(before[a].sid != before[b].sid);
            if a == idx {
                assert(updated[a].sid == before[idx].sid && updated[b] == before[b]);
            } else if b == idx {
                assert(updated[a] == before[a] && updated[b].sid == before[idx].sid);
            } else {
                assert(updated[a] == before[a] && updated[b] == before[b]);
            }
        }
    }
    assert forall|s: i32| fact_sid_has(updated, s) <==> fact_sid_has(before, s) by {
        if fact_sid_has(updated, s) {
            let k = choose|k: int| 0 <= k < updated.len() && updated[k].sid == s;
            assert(before[k].sid == s);
        }
        if fact_sid_has(before, s) {
            let k = choose|k: int| 0 <= k < before.len() && before[k].sid == s;
            assert(updated[k].sid == s);
        }
    }
    assert forall|s: i32, t: Seq<char>| s != row.sid implies (fact_has(updated, s, t)
        <==> fact_has(before, s, t)) by {
        if fact_has(updated, s, t) {
            let k = choose|k: int| 0 <= k < updated.len() && updated[k].sid == s && updated[k].text@
                == t;
            assert(k != idx);
            assert(before[k] == updated[k]);
        }
        if fact_has(before, s, t) {
            let k = choose|k: int| 0 <= k < before.len() && before[k].sid == s && before[k].text@
                == t;
            assert(k != idx);
            assert(updated[k] == before[k]);
        }
    }
    assert forall|t: Seq<char>| fact_has(updated, row.sid, t) <==> t == row.text@ by {
        if fact_has(updated, row.sid, t) {
            let k = choose|k: int|
                0 <= k < updated.len() && updated[k].sid == row.sid && updated[k].text@ == t;
            if k != idx {
                assert(before[k] == updated[k]);
                assert(before[k].sid != before[idx].sid);
            }
        }
        if t == row.text@ {
            assert(updated[idx].sid == row.sid && updated[idx].text@ == t);
        }
    }
}

/// Remove every fact of `sid` (the cascade of a company deletion).
pub fn fact_remove_sid(rows: &mut Vec<FactRow>, sid: i32)
    requires
        facts_unique(old(rows)@),
    ensures
        facts_unique(final(rows)@),
        forall|s: i32, t: Seq<char>|
            fact_has(final(rows)@, s, t) <==> fact_has(old(rows)@, s, t) && s != sid,
        forall|s: i32| fact_sid_has(final(rows)@, s) <==> fact_sid_has(old(rows)@, s) && s != sid,
        fact_sids_unique(old(rows)@) ==> fact_sids_unique(final(rows)@),
{
    let ghost before = rows@;
    let mut kept: Vec<FactRow> = Vec::new();
    let mut i: usize = 0;
    while i < rows.len()
        invariant
            i <= rows@.len(),
            rows@ == before,
            facts_unique(before),
            forall|s: i32, t: Seq<char>|
                #[trigger] fact_has(kept@, s, t) <==> fact_has(before.take(i as int), s, t) && s
                    != sid,
            forall|s: i32|
                #[trigger] fact_sid_has(kept@, s) <==> fact_sid_has(before.take(i as int), s) && s
                    != sid,
            facts_unique(kept@),
            fact_sids_unique(before) ==> fact_sids_unique(kept@),
        decreases rows@.len() - i,
    {
        let ghost row = before[i as int];
        let ghost kept_before = kept@;
        proof {
            lemma_fact_take_succ(before, i as int);
        }
        if rows[i].sid != sid {
            proof {
                lemma_fact_push(kept_before, row);
                // the row is not yet in kept: that would be a duplicate in `before`
                assert(!fact_has(kept_before, row.sid, row.text@)) by {
                    if fact_has(before.take(i as int), row.sid, row.text@) {
                        let k = choose|k: int|
                            0 <= k < before.take(i as int).len() && before.take(i as int)[k].sid
                                == row.sid && before.take(i as int)[k].text@ == row.text@;
                        assert(before[k].sid == row.sid && before[k].text@ == row.text@);
                        assert(!(before[k].sid == before[i as int].sid && before[k].text@
                            == before[i as int].text@));
                    }
                }
                if fact_sids_unique(before) {
                    assert(!fact_sid_has(kept_before, row.sid)) by {
                        if fact_sid_has(before.take(i as int), row.sid) {
                            let k = choose|k: int|
                                0 <= k < before.take(i as int).len() && before.take(
                                    i as int,
                                )[k].sid == row.sid;
                            assert(before[k].sid == row.sid);
                            assert(before[k].sid != before[i as int].sid);
                        }
                    }
                }
            }
            kept.push(clone_fact(&rows[i]));
            assert(kept@ == kept_before.push(row));
            assert(facts_unique(kept@)) by {
                assert forall|a: int, b: int| 0 <= a < b < kept@.len() implies !(kept@[a].sid
                    == kept@[b].sid && kept@[a].text@ == kept@[b].text@) by {
                    if b == kept@.len() - 1 {
                        assert(kept@[a] == kept_before[a]);
                        if kept@[a].sid == row.sid && kept@[a].text@ == row.text@ {
                            assert(fact_has(kept_before, row.sid, row.text@));
                        }
                    } else {
                        assert(kept@[a] == kept_before[a] && kept@[b] == kept_before[b]);
                    }
                }
            }
            assert(fact_sids_unique(before) ==> fact_sids_unique(kept@)) by {
                if fact_sids_unique(before) {
                    assert forall|a: int, b: int| 0 <= a < b < kept@.len() implies kept@[a].sid
                        != kept@[b].sid by {
                        if b == kept@.len() - 1 {
                            assert(kept@[a] == kept_before[a]);
                            if kept@[a].sid == row.sid {
                                assert(fact_sid_has(kept_before, row.sid));
                            }
                        } else {
                            assert(kept@[a] == kept_before[a] && kept@[b] == kept_before[b]);
                        }
                    }
                }
            }
        }
        i += 1;
    }
    proof {
        lemma_fact_take_all(before);
    }
    *rows = kept;
}

/// Collect the facts of `sid`, each exactly once.
pub fn fact_collect(rows: &Vec<FactRow>, sid: i32) -> (r: Vec<String>)
    requires
        facts_unique(rows@),
    ensures
        forall|t: Seq<char>| strings_have(r@, t) <==> fact_has(rows@, sid, t),
        strings_unique(r@),
{
    let ghost all = rows@;
    let mut out: Vec<String> = Vec::new();
    let mut i: usize = 0;
    while i < rows.len()
        invariant
            i <= rows@.len(),
            rows@ == all,
            facts_unique(all),
            forall|t: Seq<char>|
                #[trigger] strings_have(out@, t) <==> fact_has(all.take(i as int), sid, t),
            strings_unique(out@),
        decreases rows@.len() - i,
    {
        let ghost row = all[i as int];
        let ghost out_before = out@;
        proof {
            lemma_fact_take_succ(all, i as int);
        }
        if rows[i].sid == sid {
            proof {
                assert(!strings_have(out_before, row.text@)) by {
                    if fact_has(all.take(i as int), sid, row.text@) {
                        let k = choose|k: int|
                            0 <= k < all.take(i as int).len() && all.take(i as int)[k].sid == sid
                                && all.take(i as int)[k].text@ == row.text@;
                        assert(all[k].sid == sid && all[k].text@ == row.text@);
                        assert(!(all[k].sid == all[i as int].sid && all[k].text@
                            == all[i as int].text@));
                    }
                }
            }
            out.push(rows[i].text.clone());
            assert(out@ == out_before.push(row.text));
            assert forall|t: Seq<char>| #[trigger] strings_have(out@, t) <==> strings_have(
                out_before,
                t,
            ) || t == row.text@ by {
                if strings_have(out@, t) {
                    let k = choose|k: int| 0 <= k < out@.len() && out@[k]@ == t;
                    if k < out_before.len() {
                        assert(out_before[k]@ == t);
                    }
                }
                if strings_have(out_before, t) {
                    let k = choose|k: int| 0 <= k < out_before.len() && out_before[k]@ == t;
                    assert(out@[k]@ == t);
                }
                if t == row.text@ {
                    assert(out@[out@.len() - 1]@ == t);
                }
            }
            assert(strings_unique(out@)) by {
                assert forall|a: int, b: int| 0 <= a < b < out@.len() implies out@[a]@
                    != out@[b]@ by {
                    if b == out@.len() - 1 {
                        assert(out@[a] == out_before[a]);
                        if out@[a]@ == row.text@ {
                            assert(strings_have(out_before, row.text@));
                        }
                    } else {
                        assert(out@[a] == out_before[a] && out@[b] == out_before[b]);
                    }
                }
            }
        } else {
            proof {
                assert forall|t: Seq<char>| strings_have(out@, t) <==> fact_has(
                    all.take(i + 1),
                    sid,
                    t,
                ) by {}
            }
        }
        i += 1;
    }
    proof {
        lemma_fact_take_all(all);
    }
    out
}

/// The sequence of strings holds one whose characters are `t`.
pub open spec fn strings_have(ss: Seq<String>, t: Seq<char>) -> bool {
    exists|i: int| 0 <= i < ss.len() && ss[i]@ == t
}

/// No two strings of the sequence have the same characters.
pub open spec fn strings_unique(ss: Seq<String>) -> bool {
    forall|i: int, j: int| 0 <= i < j < ss.len() ==> ss[i]@ != ss[j]@
}


// ------------------------------------------------------------------------
// website table: spec level

/// The table holds `url` as a website of company `sid`.
pub open spec fn web_has(rows: Seq<WebsiteRow>, sid: i32, url: Seq<char>) -> bool {
    exists|i: int| 0 <= i < rows.len() && rows[i].sid == sid && rows[i].url@ == url
}

/// The table holds some website of company `sid`: the company is discovered.
pub open spec fn web_sid_has(rows: Seq<WebsiteRow>, sid: i32) -> bool {
    exists|i: int| 0 <= i < rows.len() && rows[i].sid == sid
}

/// The website (sid, url) is present and its captcha flag is `f`.
pub open spec fn web_flag_is(rows: Seq<WebsiteRow>, sid: i32, url: Seq<char>, f: bool) -> bool {
    exists|i: int|
        0 <= i < rows.len() && rows[i].sid == sid && rows[i].url@ == url && rows[i].has_captcha
            == f
}

/// Some website of `sid` carries the captcha flag `f`.
pub open spec fn web_sid_flag_has(rows: Seq<WebsiteRow>, sid: i32, f: bool) -> bool {
    exists|i: int| 0 <= i < rows.len() && rows[i].sid == sid && rows[i].has_captcha == f
}

/// No (sid, url) pair occurs twice: set semantics.
pub open spec fn webs_unique(rows: Seq<WebsiteRow>) -> bool {
    forall|i: int, j: int|
        0 <= i < j < rows.len() ==> !(rows[i].sid == rows[j].sid && rows[i].url@ == rows[j].url@)
}

// ------------------------------------------------------------------------
// website table: lemmas

proof fn lemma_web_push(rows: Seq<WebsiteRow>, row: WebsiteRow)
    ensures
        forall|s: i32, u: Seq<char>|
            #[trigger] web_has(rows.push(row), s, u) <==> web_has(rows, s, u) || (s == row.sid && u
                == row.url@),
        forall|s: i32|
            #[trigger] web_sid_has(rows.push(row), s) <==> web_sid_has(rows, s) || s == row.sid,
        forall|s: i32, u: Seq<char>, f: bool|
            #[trigger] web_flag_is(rows.push(row), s, u, f) <==> web_flag_is(rows, s, u, f) || (s
                == row.sid && u == row.url@ && f == row.has_captcha),
        forall|s: i32, f: bool|
            #[trigger] web_sid_flag_has(rows.push(row), s, f) <==> web_sid_flag_has(rows, s, f)
                || (s == row.sid && f == row.has_captcha),
{
    let pushed = rows.push(row);
    assert forall|s: i32, u: Seq<char>| #[trigger]
        web_has(pushed, s, u) implies web_has(rows, s, u) || (s == row.sid && u == row.url@) by {
        let i = choose|i: int| 0 <= i < pushed.len() && pushed[i].sid == s && pushed[i].url@ == u;
        if i < rows.len() {
            assert(rows[i].sid == s && rows[i].url@ == u);
        }
    }
    assert forall|s: i32, u: Seq<char>|
        web_has(rows, s, u) || (s == row.sid && u == row.url@) implies #[trigger] web_has(
        pushed,
        s,
        u,
    ) by {
        if web_has(rows, s, u) {
            let i = choose|i: int| 0 <= i < rows.len() && rows[i].sid == s && rows[i].url@ == u;
            assert(pushed[i].sid == s && pushed[i].url@ == u);
        } else {
            assert(pushed[rows.len() as int].sid == s && pushed[rows.len() as int].url@ == u);
        }
    }
    assert forall|s: i32| #[trigger] web_sid_has(pushed, s) implies web_sid_has(rows, s) || s
        == row.sid by {
        let i = choose|i: int| 0 <= i < pushed.len() && pushed[i].sid == s;
        if i < rows.len() {
            assert(rows[i].sid == s);
        }
    }
    assert forall|s: i32| web_sid_has(rows, s) || s == row.sid implies #[trigger] web_sid_has(
        pushed,
        s,
    ) by {
        if web_sid_has(rows, s) {
            let i = choose|i: int| 0 <= i < rows.len() && rows[i].sid == s;
            assert(pushed[i].sid == s);
        } else {
            assert(pushed[rows.len() as int].sid == s);
        }
    }
    assert forall|s: i32, u: Seq<char>, f: bool| #[trigger]
        web_flag_is(pushed, s, u, f) implies web_flag_is(rows, s, u, f) || (s == row.sid && u
        == row.url@ && f == row.has_captcha) by {
        let i = choose|i: int|
            0 <= i < pushed.len() && pushed[i].sid == s && pushed[i].url@ == u
                && pushed[i].has_captcha == f;
        if i < rows.len() {
            assert(rows[i].sid == s && rows[i].url@ == u && rows[i].has_captcha == f);
        }
    }
    assert forall|s: i32, u: Seq<char>, f: bool|
        web_flag_is(rows, s, u, f) || (s == row.sid && u == row.url@ && f
        == row.has_captcha) implies #[trigger] web_flag_is(pushed, s, u, f) by {
        if web_flag_is(rows, s, u, f) {
            let i = choose|i: int|
                0 <= i < rows.len() && rows[i].sid == s && rows[i].url@ == u
                    && rows[i].has_captcha == f;
            assert(pushed[i].sid == s && pushed[i].url@ == u && pushed[i].has_captcha == f);
        } else {
            assert(pushed[rows.len() as int].sid == s && pushed[rows.len() as int].url@ == u
                && pushed[rows.len() as int].has_captcha == f);
        }
    }
    assert forall|s: i32, f: bool| #[trigger]
        web_sid_flag_has(pushed, s, f) implies web_sid_flag_has(rows, s, f) || (s == row.sid && f
        == row.has_captcha) by {
        let i = choose|i: int|
            0 <= i < pushed.len() && pushed[i].sid == s && pushed[i].has_captcha == f;
        if i < rows.len() {
            assert(rows[i].sid == s && rows[i].has_captcha == f);
        }
    }
    assert forall|s: i32, f: bool|
        web_sid_flag_has(rows, s, f) || (s == row.sid && f
        == row.has_captcha) implies #[trigger] web_sid_flag_has(pushed, s, f) by {
        if web_sid_flag_has(rows, s, f) {
            let i = choose|i: int|
                0 <= i < rows.len() && rows[i].sid == s && rows[i].has_captcha == f;
            assert(pushed[i].sid == s && pushed[i].has_captcha == f);
        } else {
            assert(pushed[rows.len() as int].sid == s && pushed[rows.len() as int].has_captcha
                == f);
        }
    }
}

proof fn lemma_web_take_succ(rows: Seq<WebsiteRow>, i: int)
    requires
        0 <= i < rows.len(),
    ensures
        forall|s: i32, u: Seq<char>|
            #[trigger] web_has(rows.take(i + 1), s, u) <==> web_has(rows.take(i), s, u) || (s
                == rows[i].sid && u == rows[i].url@),
        forall|s: i32|
            #[trigger] web_sid_has(rows.take(i + 1), s) <==> web_sid_has(rows.take(i), s) || s
                == rows[i].sid,
        forall|s: i32, u: Seq<char>, f: bool|
            #[trigger] web_flag_is(rows.take(i + 1), s, u, f) <==> web_flag_is(rows.take(i), s, u, f)
                || (s == rows[i].sid && u == rows[i].url@ && f == rows[i].has_captcha),
        forall|s: i32, f: bool|
            #[trigger] web_sid_flag_has(rows.take(i + 1), s, f) <==> web_sid_flag_has(
                rows.take(i),
                s,
                f,
            ) || (s == rows[i].sid && f == rows[i].has_captcha),
{
    assert(rows.take(i + 1) =~= rows.take(i).push(rows[i]));
    lemma_web_push(rows.take(i), rows[i]);
}

proof fn lemma_web_take_all(rows: Seq<WebsiteRow>)
    ensures
        rows.take(rows.len() as int) == rows,
{
    assert(rows.take(rows.len() as int) =~= rows);
}

/// Replacing the row at `idx` by one with the same sid and url keeps the set
/// of websites and changes no other website's flag.
proof fn lemma_web_update_flag(before: Seq<WebsiteRow>, idx: int, row: WebsiteRow)
    requires
        0 <= idx < before.len(),
        webs_unique(before),
        before[idx].sid == row.sid,
        before[idx].url@ == row.url@,
    ensures
        webs_unique(before.update(idx, row)),
        forall|s: i32, u: Seq<char>|
            #[trigger] web_has(before.update(idx, row), s, u) <==> web_has(before, s, u),
        forall|s: i32| #[trigger] web_sid_has(before.update(idx, row), s) <==> web_sid_has(before, s),
        forall|s: i32, u: Seq<char>, f: bool|
            !(s == row.sid && u == row.url@) ==> (#[trigger] web_flag_is(
                before.update(idx, row),
                s,
                u,
                f,
            ) <==> web_flag_is(before, s, u, f)),
        web_flag_is(before.update(idx, row), row.sid, row.url@, row.has_captcha),
        forall|f: bool|
            #[trigger] web_flag_is(before.update(idx, row), row.sid, row.url@, f) ==> f
                == row.has_captcha,
{
    let updated = before.update(idx, row);
    assert(webs_unique(updated)) by {
        assert forall|a: int, b: int| 0 <= a < b < updated.len() implies !(updated[a].sid
            == updated[b].sid && updated[a].url@ == updated[b].url@) by {
            assert(!(before[a].sid == before[b].sid && before[a].url@ == before[b].url@));
            if a == idx {
                assert(updated[b] == before[b]);
            } else if b == idx {
                assert(updated[a] == before[a]);
            } else {
                assert(updated[a] == before[a] && updated[b] == before[b]);
            }
        }
    }
    assert forall|s: i32, u: Seq<char>| #[trigger]
        web_has(updated, s, u) <==> web_has(before, s, u) by {
        if web_has(updated, s, u) {
            let k = choose|k: int| 0 <= k < updated.len() && updated[k].sid == s && updated[k].url@
                == u;
            assert(before[k].sid == s && before[k].url@ == u);
        }
        if web_has(before, s, u) {
            let k = choose|k: int| 0 <= k < before.len() && before[k].sid == s && before[k].url@
                == u;
            assert(updated[k].sid == s && updated[k].url@ == u);
        }
    }
    assert forall|s: i32| #[trigger] web_sid_has(updated, s) <==> web_sid_has(before, s) by {
        if web_sid_has(updated, s) {
            let k = choose|k: int| 0 <= k < updated.len() && updated[k].sid == s;
            assert(before[k].sid == s);
        }
        if web_sid_has(before, s) {
            let k = choose|k: int| 0 <= k < before.len() && before[k].sid == s;
            assert(updated[k].sid == s);
        }
    }
    assert forall|s: i32, u: Seq<char>, f: bool|
        !(s == row.sid && u == row.url@) implies (#[trigger] web_flag_is(updated, s, u, f)
        <==> web_flag_is(before, s, u, f)) by {
        if web_flag_is(updated, s, u, f) {
            let k = choose|k: int|
                0 <= k < updated.len() && updated[k].sid == s && updated[k].url@ == u
                    && updated[k].has_captcha == f;
            assert(k != idx);
            assert(before[k] == updated[k]);
        }
        if web_flag_is(before, s, u, f) {
            let k = choose|k: int|
                0 <= k < before.len() && before[k].sid == s && before[k].url@ == u
                    && before[k].has_captcha == f;
            assert(k != idx);
            assert(updated[k] == before[k]);
        }
    }
    assert(web_flag_is(updated, row.sid, row.url@, row.has_captcha)) by {
        assert(updated[idx].sid == row.sid && updated[idx].url@ == row.url@
            && updated[idx].has_captcha == row.has_captcha);
    }
    assert forall|f: bool| #[trigger]
        web_flag_is(updated, row.sid, row.url@, f) implies f == row.has_captcha by {
        let k = choose|k: int|
            0 <= k < updated.len() && updated[k].sid == row.sid && updated[k].url@ == row.url@
                && updated[k].has_captcha == f;
        if k != idx {
            assert(before[k] == updated[k]);
            assert(!(before[k].sid == before[idx].sid && before[k].url@ == before[idx].url@));
        }
    }
}

// ------------------------------------------------------------------------
// website table: executable helpers

/// Copy one row.
fn clone_web(r: &WebsiteRow) -> (c: WebsiteRow)
    ensures
        c == *r,
{
    WebsiteRow { sid: r.sid, url: r.url.clone(), has_captcha: r.has_captcha }
}

/// Whether the table holds the website (sid, url).
pub fn web_contains(rows: &Vec<WebsiteRow>, sid: i32, url: &String) -> (b: bool)
    ensures
        b == web_has(rows@, sid, url@),
{
    let mut i: usize = 0;
    while i < rows.len()
        invariant
            i <= rows@.len(),
            forall|k: int| 0 <= k < i ==> !(rows@[k].sid == sid && rows@[k].url@ == url@),
        decreases rows@.len() - i,
    {
        if rows[i].sid == sid && rows[i].url == *url {
            return true;
        }
        i += 1;
    }
    false
}

/// Whether the table holds any website of `sid`.
pub fn web_sid_contains(rows: &Vec<WebsiteRow>, sid: i32) -> (b: bool)
    ensures
        b == web_sid_has(rows@, sid),
{
    let mut i: usize = 0;
    while i < rows.len()
        invariant
            i <= rows@.len(),
            forall|k: int| 0 <= k < i ==> rows@[k].sid != sid,
        decreases rows@.len() - i,
    {
        if rows[i].sid == sid {
            return true;
        }
        i += 1;
    }
    false
}

/// Attach the website (sid, url) with the given flag; a no-op (keeping the
/// stored flag) when the pair is already present.
pub fn web_insert(rows: &mut Vec<WebsiteRow>, sid: i32, url: &String, has_captcha: bool)
    requires
        webs_unique(old(rows)@),
    ensures
        webs_unique(final(rows)@),
        forall|s: i32, u: Seq<char>|
            #[trigger] web_has(final(rows)@, s, u) <==> web_has(old(rows)@, s, u) || (s == sid && u
                == url@),
        forall|s: i32|
            #[trigger] web_sid_has(final(rows)@, s) <==> web_sid_has(old(rows)@, s) || s == sid,
        forall|s: i32, u: Seq<char>, f: bool|
            #[trigger] web_flag_is(final(rows)@, s, u, f) <==> web_flag_is(old(rows)@, s, u, f) || (
            !web_has(old(rows)@, sid, url@) && s == sid && u == url@ && f == has_captcha),
        web_has(old(rows)@, sid, url@) ==> final(rows)@ == old(rows)@,
{
    if web_contains(rows, sid, url) {
        return ;
    }
    let ghost before = rows@;
    let row = WebsiteRow { sid, url: url.clone(), has_captcha };
    proof {
        lemma_web_push(before, row);
    }
    rows.push(row);
    assert(rows@ == before.push(row));
    assert(webs_unique(rows@)) by {
        assert forall|a: int, b: int| 0 <= a < b < rows@.len() implies !(rows@[a].sid
            == rows@[b].sid && rows@[a].url@ == rows@[b].url@) by {
            if b == rows@.len() - 1 {
                assert(rows@[a] == before[a]);
                if rows@[a].sid == sid && rows@[a].url@ == url@ {
                    assert(web_has(before, sid, url@));
                }
            } else {
                assert(rows@[a] == before[a] && rows@[b] == before[b]);
            }
        }
    }
}

/// Set the captcha flag of the website (sid, url); a no-op when the pair is
/// not present.
pub fn web_set_flag(rows: &mut Vec<WebsiteRow>, sid: i32, url: &String, has_captcha: bool)
    requires
        webs_unique(old(rows)@),
    ensures
        webs_unique(final(rows)@),
        forall|s: i32, u: Seq<char>|
            #[trigger] web_has(final(rows)@, s, u) <==> web_has(old(rows)@, s, u),
        forall|s: i32| #[trigger] web_sid_has(final(rows)@, s) <==> web_sid_has(old(rows)@, s),
        forall|s: i32, u: Seq<char>, f: bool|
            !(s == sid && u == url@) ==> (#[trigger] web_flag_is(final(rows)@, s, u, f)
                <==> web_flag_is(old(rows)@, s, u, f)),
        web_has(old(rows)@, sid, url@) ==> web_flag_is(final(rows)@, sid, url@, has_captcha),
        web_has(old(rows)@, sid, url@) ==> (forall|f: bool|
            #[trigger] web_flag_is(final(rows)@, sid, url@, f) ==> f == has_captcha),
        !web_has(old(rows)@, sid, url@) ==> final(rows)@ == old(rows)@,
{
    let ghost before = rows@;
    let mut i: usize = 0;
    while i < rows.len()
        invariant
            i <= rows@.len(),
            rows@ == before,
            before == old(rows)@,
            webs_unique(before),
            forall|k: int| 0 <= k < i ==> !(before[k].sid == sid && before[k].url@ == url@),
        decreases rows@.len() - i,
    {
        if rows[i].sid == sid && rows[i].url == *url {
            let row = WebsiteRow { sid, url: url.clone(), has_captcha };
            let ghost idx = i as int;
            rows.set(i, row);
            proof {
                assert(rows@ == before.update(idx, row));
                lemma_web_update_flag(before, idx, row);
                assert(web_has(before, sid, url@)) by {
                    assert(before[idx].sid == sid && before[idx].url@ == url@);
                }
            }
            return ;
        }
        i += 1;
    }
    assert(!web_has(before, sid, url@));
}

/// Remove every website of `sid` (the cascade of a company deletion).
pub fn web_remove_sid(rows: &mut Vec<WebsiteRow>, sid: i32)
    requires
        webs_unique(old(rows)@),
    ensures
        webs_unique(final(rows)@),
        forall|s: i32, u: Seq<char>|
            #[trigger] web_has(final(rows)@, s, u) <==> web_has(old(rows)@, s, u) && s != sid,
        forall|s: i32|
            #[trigger] web_sid_has(final(rows)@, s) <==> web_sid_has(old(rows)@, s) && s != sid,
        forall|s: i32, u: Seq<char>, f: bool|
            #[trigger] web_flag_is(final(rows)@, s, u, f) <==> web_flag_is(old(rows)@, s, u, f)
                && s != sid,
{
    let ghost before = rows@;
    let mut kept: Vec<WebsiteRow> = Vec::new();
    let mut i: usize = 0;
    while i < rows.len()
        invariant
            i <= rows@.len(),
            rows@ == before,
            webs_unique(before),
            forall|s: i32, u: Seq<char>|
                #[trigger] web_has(kept@, s, u) <==> web_has(before.take(i as int), s, u) && s
                    != sid,
            forall|s: i32|
                #[trigger] web_sid_has(kept@, s) <==> web_sid_has(before.take(i as int), s) && s
                    != sid,
            forall|s: i32, u: Seq<char>, f: bool|
                #[trigger] web_flag_is(kept@, s, u, f) <==> web_flag_is(
                    before.take(i as int),
                    s,
                    u,
                    f,
                ) && s != sid,
            webs_unique(kept@),
        decreases rows@.len() - i,
    {
        let ghost row = before[i as int];
        let ghost kept_before = kept@;
        proof {
            lemma_web_take_succ(before, i as int);
        }
        if rows[i].sid != sid {
            proof {
                lemma_web_push(kept_before, row);
                assert(!web_has(kept_before, row.sid, row.url@)) by {
                    if web_has(before.take(i as int), row.sid, row.url@) {
                        let k = choose|k: int|
                            0 <= k < before.take(i as int).len() && before.take(i as int)[k].sid
                                == row.sid && before.take(i as int)[k].url@ == row.url@;
                        assert(before[k].sid == row.sid && before[k].url@ == row.url@);
                        assert(!(before[k].sid == before[i as int].sid && before[k].url@
                            == before[i as int].url@));
                    }
                }
            }
            kept.push(clone_web(&rows[i]));
            assert(kept@ == kept_before.push(row));
            assert(webs_unique(kept@)) by {
                assert forall|a: int, b: int| 0 <= a < b < kept@.len() implies !(kept@[a].sid
                    == kept@[b].sid && kept@[a].url@ == kept@[b].url@) by {
                    if b == kept@.len() - 1 {
                        assert(kept@[a] == kept_before[a]);
                        if kept@[a].sid == row.sid && kept@[a].url@ == row.url@ {
                            assert(web_has(kept_before, row.sid, row.url@));
                        }
                    } else {
                        assert(kept@[a] == kept_before[a] && kept@[b] == kept_before[b]);
                    }
                }
            }
        }
        i += 1;
    }
    proof {
        lemma_web_take_all(before);
    }
    *rows = kept;
}

/// Collect the websites of `sid`, each exactly once.
pub fn web_collect(rows: &Vec<WebsiteRow>, sid: i32) -> (r: Vec<String>)
    requires
        webs_unique(rows@),
    ensures
        forall|u: Seq<char>| #[trigger] strings_have(r@, u) <==> web_has(rows@, sid, u),
        strings_unique(r@),
{
    let ghost all = rows@;
    let mut out: Vec<String> = Vec::new();
    let mut i: usize = 0;
    while i < rows.len()
        invariant
            i <= rows@.len(),
            rows@ == all,
            webs_unique(all),
            forall|u: Seq<char>|
                #[trigger] strings_have(out@, u) <==> web_has(all.take(i as int), sid, u),
            strings_unique(out@),
        decreases rows@.len() - i,
    {
        let ghost row = all[i as int];
        let ghost out_before = out@;
        proof {
            lemma_web_take_succ(all, i as int);
        }
        if rows[i].sid == sid {
            proof {
                assert(!strings_have(out_before, row.url@)) by {
                    if web_has(all.take(i as int), sid, row.url@) {
                        let k = choose|k: int|
                            0 <= k < all.take(i as int).len() && all.take(i as int)[k].sid == sid
                                && all.take(i as int)[k].url@ == row.url@;
                        assert(all[k].sid == sid && all[k].url@ == row.url@);
                        assert(!(all[k].sid == all[i as int].sid && all[k].url@
                            == all[i as int].url@));
                    }
                }
            }
            out.push(rows[i].url.clone());
            assert(out@ == out_before.push(row.url));
            assert forall|u: Seq<char>| #[trigger] strings_have(out@, u) <==> strings_have(
                out_before,
                u,
            ) || u == row.url@ by {
                if strings_have(out@, u) {
                    let k = choose|k: int| 0 <= k < out@.len() && out@[k]@ == u;
                    if k < out_before.len() {
                        assert(out_before[k]@ == u);
                    }
                }
                if strings_have(out_before, u) {
                    let k = choose|k: int| 0 <= k < out_before.len() && out_before[k]@ == u;
                    assert(out@[k]@ == u);
                }
                if u == row.url@ {
                    assert(out@[out@.len() - 1]@ == u);
                }
            }
            assert(strings_unique(out@)) by {
                assert forall|a: int, b: int| 0 <= a < b < out@.len() implies out@[a]@
                    != out@[b]@ by {
                    if b == out@.len() - 1 {
                        assert(out@[a] == out_before[a]);
                        if out@[a]@ == row.url@ {
                            assert(strings_have(out_before, row.url@));
                        }
                    } else {
                        assert(out@[a] == out_before[a] && out@[b] == out_before[b]);
                    }
                }
            }
        }
        i += 1;
    }
    proof {
        lemma_web_take_all(all);
    }
    out
}

/// The captcha flag of some website of `sid`, if the company has one.
pub fn web_flag_lookup(rows: &Vec<WebsiteRow>, sid: i32) -> (r: Option<bool>)
    ensures
        match r {
            Some(f) => web_sid_flag_has(rows@, sid, f),
            None => !web_sid_has(rows@, sid),
        },
{
    let mut i: usize = 0;
    while i < rows.len()
        invariant
            i <= rows@.len(),
            forall|k: int| 0 <= k < i ==> rows@[k].sid != sid,
        decreases rows@.len() - i,
    {
        if rows[i].sid == sid {
            let f = rows[i].has_captcha;
            assert(rows@[i as int].sid == sid && rows@[i as int].has_captcha == f);
            return Some(f);
        }
        i += 1;
    }
    None
}

/// The captcha flag of the website (sid, url), if that pair is present.
pub fn web_lookup_flag(rows: &Vec<WebsiteRow>, sid: i32, url: &String) -> (r: Option<bool>)
    ensures
        match r {
            Some(f) => web_flag_is(rows@, sid, url@, f),
            None => !web_has(rows@, sid, url@),
        },
{
    let mut i: usize = 0;
    while i < rows.len()
        invariant
            i <= rows@.len(),
            forall|k: int| 0 <= k < i ==> !(rows@[k].sid == sid && rows@[k].url@ == url@),
        decreases rows@.len() - i,
    {
        if rows[i].sid == sid && rows[i].url == *url {
            let f = rows[i].has_captcha;
            assert(rows@[i as int].sid == sid && rows@[i as int].url@ == url@
                && rows@[i as int].has_captcha == f);
            return Some(f);
        }
        i += 1;
    }
    None
}

// ------------------------------------------------------------------------
// natural-key table: spec level

/// The table maps the regulatory id `cik` to the surrogate id `sid`.
pub open spec fn cik_maps(rows: Seq<CikRow>, cik: i32, sid: i32) -> bool {
    exists|i: int| 0 <= i < rows.len() && rows[i].cik == cik && rows[i].sid == sid
}

/// The table maps `cik` to some surrogate id.
pub open spec fn cik_has(rows: Seq<CikRow>, cik: i32) -> bool {
    exists|i: int| 0 <= i < rows.len() && rows[i].cik == cik
}

/// Some regulatory id maps to `sid`.
pub open spec fn cik_sid_has(rows: Seq<CikRow>, sid: i32) -> bool {
    exists|i: int| 0 <= i < rows.len() && rows[i].sid == sid
}

/// Each regulatory id maps to at most one surrogate id.
pub open spec fn ciks_unique(rows: Seq<CikRow>) -> bool {
    forall|i: int, j: int| 0 <= i < j < rows.len() ==> rows[i].cik != rows[j].cik
}

/// Each surrogate id has at most one regulatory id.
pub open spec fn cik_sids_unique(rows: Seq<CikRow>) -> bool {
    forall|i: int, j: int| 0 <= i < j < rows.len() ==> rows[i].sid != rows[j].sid
}

// ------------------------------------------------------------------------
// natural-key table: lemmas

proof fn lemma_cik_push(rows: Seq<CikRow>, row: CikRow)
    ensures
        forall|c: i32, s: i32|
            #[trigger] cik_maps(rows.push(row), c, s) <==> cik_maps(rows, c, s) || (c == row.cik
                && s == row.sid),
        forall|c: i32| #[trigger] cik_has(rows.push(row), c) <==> cik_has(rows, c) || c == row.cik,
        forall|s: i32|
            #[trigger] cik_sid_has(rows.push(row), s) <==> cik_sid_has(rows, s) || s == row.sid,
{
    let pushed = rows.push(row);
    assert forall|c: i32, s: i32| #[trigger]
        cik_maps(pushed, c, s) implies cik_maps(rows, c, s) || (c == row.cik && s == row.sid) by {
        let i = choose|i: int| 0 <= i < pushed.len() && pushed[i].cik == c && pushed[i].sid == s;
        if i < rows.len() {
            assert(rows[i].cik == c && rows[i].sid == s);
        }
    }
    assert forall|c: i32, s: i32|
        cik_maps(rows, c, s) || (c == row.cik && s == row.sid) implies #[trigger] cik_maps(
        pushed,
        c,
        s,
    ) by {
        if cik_maps(rows, c, s) {
            let i = choose|i: int| 0 <= i < rows.len() && rows[i].cik == c && rows[i].sid == s;
            assert(pushed[i].cik == c && pushed[i].sid == s);
        } else {
            assert(pushed[rows.len() as int].cik == c && pushed[rows.len() as int].sid == s);
        }
    }
    assert forall|c: i32| #[trigger] cik_has(pushed, c) implies cik_has(rows, c) || c
        == row.cik by {
        let i = choose|i: int| 0 <= i < pushed.len() && pushed[i].cik == c;
        if i < rows.len() {
            assert(rows[i].cik == c);
        }
    }
    assert forall|c: i32| cik_has(rows, c) || c == row.cik implies #[trigger] cik_has(
        pushed,
        c,
    ) by {
        if cik_has(rows, c) {
            let i = choose|i: int| 0 <= i < rows.len() && rows[i].cik == c;
            assert(pushed[i].cik == c);
        } else {
            assert(pushed[rows.len() as int].cik == c);
        }
    }
    assert forall|s: i32| #[trigger] cik_sid_has(pushed, s) implies cik_sid_has(rows, s) || s
        == row.sid by {
        let i = choose|i: int| 0 <= i < pushed.len() && pushed[i].sid == s;
        if i < rows.len() {
            assert(rows[i].sid == s);
        }
    }
    assert forall|s: i32| cik_sid_has(rows, s) || s == row.sid implies #[trigger] cik_sid_has(
        pushed,
        s,
    ) by {
        if cik_sid_has(rows, s) {
            let i = choose|i: int| 0 <= i < rows.len() && rows[i].sid == s;
            assert(pushed[i].sid == s);
        } else {
            assert(pushed[rows.len() as int].sid == s);
        }
    }
}

proof fn lemma_cik_take_succ(rows: Seq<CikRow>, i: int)
    requires
        0 <= i < rows.len(),
    ensures
        forall|c: i32, s: i32|
            #[trigger] cik_maps(rows.take(i + 1), c, s) <==> cik_maps(rows.take(i), c, s) || (c
                == rows[i].cik && s == rows[i].sid),
        forall|c: i32|
            #[trigger] cik_has(rows.take(i + 1), c) <==> cik_has(rows.take(i), c) || c
                == rows[i].cik,
        forall|s: i32|
            #[trigger] cik_sid_has(rows.take(i + 1), s) <==> cik_sid_has(rows.take(i), s) || s
                == rows[i].sid,
{
    assert(rows.take(i + 1) =~= rows.take(i).push(rows[i]));
    lemma_cik_push(rows.take(i), rows[i]);
}

proof fn lemma_cik_take_all(rows: Seq<CikRow>)
    ensures
        rows.take(rows.len() as int) == rows,
{
    assert(rows.take(rows.len() as int) =~= rows);
}

// ------------------------------------------------------------------------
// natural-key table: executable helpers

/// The surrogate id that `cik` maps to, if any.
pub fn cik_lookup(rows: &Vec<CikRow>, cik: i32) -> (r: Option<i32>)
    ensures
        match r {
            Some(sid) => cik_maps(rows@, cik, sid),
            None => !cik_has(rows@, cik),
        },
{
    let mut i: usize = 0;
    while i < rows.len()
        invariant
            i <= rows@.len(),
            forall|k: int| 0 <= k < i ==> rows@[k].cik != cik,
        decreases rows@.len() - i,
    {
        if rows[i].cik == cik {
            let sid = rows[i].sid;
            assert(rows@[i as int].cik == cik && rows@[i as int].sid == sid);
            return Some(sid);
        }
        i += 1;
    }
    None
}

/// The regulatory id of `sid`, if any.
pub fn cik_lookup_by_sid(rows: &Vec<CikRow>, sid: i32) -> (r: Option<i32>)
    ensures
        match r {
            Some(c) => cik_maps(rows@, c, sid),
            None => !cik_sid_has(rows@, sid),
        },
{
    let mut i: usize = 0;
    while i < rows.len()
        invariant
            i <= rows@.len(),
            forall|k: int| 0 <= k < i ==> rows@[k].sid != sid,
        decreases rows@.len() - i,
    {
        if rows[i].sid == sid {
            let c = rows[i].cik;
            assert(rows@[i as int].cik == c && rows@[i as int].sid == sid);
            return Some(c);
        }
        i += 1;
    }
    None
}

/// Record a fresh mapping. The caller has checked that neither key is taken.
pub fn cik_insert_new(rows: &mut Vec<CikRow>, cik: i32, sid: i32)
    requires
        ciks_unique(old(rows)@),
        cik_sids_unique(old(rows)@),
        !cik_has(old(rows)@, cik),
        !cik_sid_has(old(rows)@, sid),
    ensures
        ciks_unique(final(rows)@),
        cik_sids_unique(final(rows)@),
        forall|c: i32, s: i32|
            #[trigger] cik_maps(final(rows)@, c, s) <==> cik_maps(old(rows)@, c, s) || (c == cik
                && s == sid),
        forall|c: i32| #[trigger] cik_has(final(rows)@, c) <==> cik_has(old(rows)@, c) || c == cik,
        forall|s: i32|
            #[trigger] cik_sid_has(final(rows)@, s) <==> cik_sid_has(old(rows)@, s) || s == sid,
{
    let ghost before = rows@;
    let row = CikRow { cik, sid };
    proof {
        lemma_cik_push(before, row);
    }
    rows.push(row);
    assert(rows@ == before.push(row));
    assert(ciks_unique(rows@)) by {
        assert forall|a: int, b: int| 0 <= a < b < rows@.len() implies rows@[a].cik
            != rows@[b].cik by {
            if b == rows@.len() - 1 {
                assert(rows@[a] == before[a]);
                if rows@[a].cik == cik {
                    assert(cik_has(before, cik));
                }
            } else {
                assert(rows@[a] == before[a] && rows@[b] == before[b]);
            }
        }
    }
    assert(cik_sids_unique(rows@)) by {
        assert forall|a: int, b: int| 0 <= a < b < rows@.len() implies rows@[a].sid
            != rows@[b].sid by {
            if b == rows@.len() - 1 {
                assert(rows@[a] == before[a]);
                if rows@[a].sid == sid {
                    assert(cik_sid_has(before, sid));
                }
            } else {
                assert(rows@[a] == before[a] && rows@[b] == before[b]);
            }
        }
    }
}

/// Remove the mapping of `sid`, if any (the cascade of a company deletion).
pub fn cik_remove_sid(rows: &mut Vec<CikRow>, sid: i32)
    requires
        ciks_unique(old(rows)@),
        cik_sids_unique(old(rows)@),
    ensures
        ciks_unique(final(rows)@),
        cik_sids_unique(final(rows)@),
        forall|c: i32, s: i32|
            #[trigger] cik_maps(final(rows)@, c, s) <==> cik_maps(old(rows)@, c, s) && s != sid,
        forall|s: i32|
            #[trigger] cik_sid_has(final(rows)@, s) <==> cik_sid_has(old(rows)@, s) && s != sid,
        forall|c: i32|
            #[trigger] cik_has(final(rows)@, c) <==> cik_has(old(rows)@, c) && !cik_maps(
                old(rows)@,
                c,
                sid,
            ),
{
    let ghost before = rows@;
    let mut kept: Vec<CikRow> = Vec::new();
    let mut i: usize = 0;
    while i < rows.len()
        invariant
            i <= rows@.len(),
            rows@ == before,
            ciks_unique(before),
            cik_sids_unique(before),
            forall|c: i32, s: i32|
                #[trigger] cik_maps(kept@, c, s) <==> cik_maps(before.take(i as int), c, s) && s
                    != sid,
            forall|s: i32|
                #[trigger] cik_sid_has(kept@, s) <==> cik_sid_has(before.take(i as int), s) && s
                    != sid,
            forall|c: i32|
                #[trigger] cik_has(kept@, c) <==> cik_has(before.take(i as int), c) && !cik_maps(
                    before.take(i as int),
                    c,
                    sid,
                ),
            ciks_unique(kept@),
            cik_sids_unique(kept@),
        decreases rows@.len() - i,
    {
        let ghost row = before[i as int];
        let ghost kept_before = kept@;
        proof {
            lemma_cik_take_succ(before, i as int);
            // a cik present in the prefix cannot recur at i, and vice versa
            assert forall|c: i32| cik_maps(before.take(i + 1), c, sid) implies cik_maps(
                before.take(i as int),
                c,
                sid,
            ) || (c == row.cik && row.sid == sid) by {}
        }
        if rows[i].sid != sid {
            proof {
                lemma_cik_push(kept_before, row);
                assert(!cik_has(kept_before, row.cik)) by {
                    if cik_has(before.take(i as int), row.cik) {
                        let k = choose|k: int|
                            0 <= k < before.take(i as int).len() && before.take(i as int)[k].cik
                                == row.cik;
                        assert(before[k].cik == row.cik);
                        assert(before[k].cik != before[i as int].cik);
                    }
                }
                assert(!cik_sid_has(kept_before, row.sid)) by {
                    if cik_sid_has(before.take(i as int), row.sid) {
                        let k = choose|k: int|
                            0 <= k < before.take(i as int).len() && before.take(i as int)[k].sid
                                == row.sid;
                        assert(before[k].sid == row.sid);
                        assert(before[k].sid != before[i as int].sid);
                    }
                }
                assert(!cik_maps(before.take(i as int), row.cik, sid)) by {
                    if cik_maps(before.take(i as int), row.cik, sid) {
                        let k = choose|k: int|
                            0 <= k < before.take(i as int).len() && before.take(i as int)[k].cik
                                == row.cik && before.take(i as int)[k].sid == sid;
                        assert(before[k].cik == row.cik);
                        assert(before[k].cik != before[i as int].cik);
                    }
                }
            }
            kept.push(CikRow { cik: rows[i].cik, sid: rows[i].sid });
            assert(kept@ == kept_before.push(row));
            assert(ciks_unique(kept@)) by {
                assert forall|a: int, b: int| 0 <= a < b < kept@.len() implies kept@[a].cik
                    != kept@[b].cik by {
                    if b == kept@.len() - 1 {
                        assert(kept@[a] == kept_before[a]);
                        if kept@[a].cik == row.cik {
                            assert(cik_has(kept_before, row.cik));
                        }
                    } else {
                        assert(kept@[a] == kept_before[a] && kept@[b] == kept_before[b]);
                    }
                }
            }
            assert(cik_sids_unique(kept@)) by {
                assert forall|a: int, b: int| 0 <= a < b < kept@.len() implies kept@[a].sid
                    != kept@[b].sid by {
                    if b == kept@.len() - 1 {
                        assert(kept@[a] == kept_before[a]);
                        if kept@[a].sid == row.sid {
                            assert(cik_sid_has(kept_before, row.sid));
                        }
                    } else {
                        assert(kept@[a] == kept_before[a] && kept@[b] == kept_before[b]);
                    }
                }
            }
        } else {
            proof {
                assert forall|c: i32| #[trigger]
                    cik_has(before.take(i + 1), c) && !cik_maps(before.take(i + 1), c, sid) implies
                    cik_has(kept@, c) by {
                    if c == row.cik {
                        assert(cik_maps(before.take(i + 1), c, sid)) by {
                            assert(before.take(i + 1)[i as int].cik == c && before.take(
                                i + 1,
                            )[i as int].sid == sid);
                        }
                    }
                }
            }
        }
        i += 1;
    }
    proof {
        lemma_cik_take_all(before);
    }
    *rows = kept;
}

// ------------------------------------------------------------------------
// the company list itself

/// No surrogate id occurs twice.
pub open spec fn nums_unique(s: Seq<i32>) -> bool {
    forall|i: int, j: int| 0 <= i < j < s.len() ==> s[i] != s[j]
}

/// Whether the list holds `x`.
pub fn sid_list_contains(v: &Vec<i32>, x: i32) -> (b: bool)
    ensures
        b == v@.contains(x),
{
    let mut i: usize = 0;
    while i < v.len()
        invariant
            i <= v@.len(),
            forall|k: int| 0 <= k < i ==> v@[k] != x,
        decreases v@.len() - i,
    {
        if v[i] == x {
            assert(v@[i as int] == x);
            return true;
        }
        i += 1;
    }
    false
}

/// Remove `x` from the list, if present.
pub fn sid_list_remove(v: &mut Vec<i32>, x: i32)
    requires
        nums_unique(old(v)@),
    ensures
        nums_unique(final(v)@),
        forall|y: i32| #[trigger] final(v)@.contains(y) <==> old(v)@.contains(y) && y != x,
{
    let ghost before = v@;
    let mut kept: Vec<i32> = Vec::new();
    let mut i: usize = 0;
    while i < v.len()
        invariant
            i <= v@.len(),
            v@ == before,
            nums_unique(before),
            forall|y: i32|
                #[trigger] kept@.contains(y) <==> before.take(i as int).contains(y) && y != x,
            nums_unique(kept@),
        decreases v@.len() - i,
    {
        let ghost row = before[i as int];
        let ghost kept_before = kept@;
        proof {
            assert(before.take(i + 1) =~= before.take(i as int).push(row));
            assert forall|y: i32| #[trigger]
                before.take(i + 1).contains(y) <==> before.take(i as int).contains(y) || y
                == row by {
                if before.take(i + 1).contains(y) {
                    let k = choose|k: int|
                        0 <= k < before.take(i + 1).len() && #[trigger] before.take(i + 1)[k] == y;
                    if k < i as int {
                        assert(before.take(i as int)[k] == y);
                    }
                }
                if before.take(i as int).contains(y) {
                    let k = choose|k: int|
                        0 <= k < before.take(i as int).len() && #[trigger] before.take(
                            i as int,
                        )[k] == y;
                    assert(before.take(i + 1)[k] == y);
                }
                if y == row {
                    assert(before.take(i + 1)[i as int] == y);
                }
            }
        }
        if v[i] != x {
            proof {
                assert(!kept_before.contains(row)) by {
                    if before.take(i as int).contains(row) {
                        let k = choose|k: int|
                            0 <= k < before.take(i as int).len() && #[trigger] before.take(
                                i as int,
                            )[k] == row;
                        assert(before[k] == row);
                        assert(before[k] != before[i as int]);
                    }
                }
            }
            kept.push(v[i]);
            assert(kept@ == kept_before.push(row));
            assert forall|y: i32| #[trigger] kept@.contains(y) <==> kept_before.contains(y) || y
                == row by {
                if kept@.contains(y) {
                    let k = choose|k: int| 0 <= k < kept@.len() && #[trigger] kept@[k] == y;
                    if k < kept_before.len() {
                        assert(kept_before[k] == y);
                    }
                }
                if kept_before.contains(y) {
                    let k = choose|k: int|
                        0 <= k < kept_before.len() && #[trigger] kept_before[k] == y;
                    assert(kept@[k] == y);
                }
                if y == row {
                    assert(kept@[kept@.len() - 1] == y);
                }
            }
            assert(nums_unique(kept@)) by {
                assert forall|a: int, b: int| 0 <= a < b < kept@.len() implies kept@[a]
                    != kept@[b] by {
                    if b == kept@.len() - 1 {
                        assert(kept@[a] == kept_before[a]);
                        if kept@[a] == row {
                            assert(kept_before.contains(row)) by {
                                assert(kept_before[a] == row);
                            }
                        }
                    } else {
                        assert(kept@[a] == kept_before[a] && kept@[b] == kept_before[b]);
                    }
                }
            }
        }
        i += 1;
    }
    proof {
        assert(before.take(before.len() as int) =~= before);
    }
    *v = kept;
}


// ------------------------------------------------------------------------
// small derivation lemmas shared by the store

/// A held pair witnesses that its company has some fact.
pub proof fn lemma_fact_has_sid(rows: Seq<FactRow>, sid: i32, text: Seq<char>)
    requires
        fact_has(rows, sid, text),
    ensures
        fact_sid_has(rows, sid),
{
    let i = choose|i: int| 0 <= i < rows.len() && rows[i].sid == sid && rows[i].text@ == text;
    assert(rows[i].sid == sid);
}

/// A company with some fact has a held pair.
pub proof fn lemma_fact_sid_has_some(rows: Seq<FactRow>, sid: i32)
    requires
        fact_sid_has(rows, sid),
    ensures
        exists|t: Seq<char>| fact_has(rows, sid, t),
{
    let i = choose|i: int| 0 <= i < rows.len() && rows[i].sid == sid;
    assert(fact_has(rows, sid, rows[i].text@));
}

/// A held website witnesses that its company is discovered.
pub proof fn lemma_web_has_sid(rows: Seq<WebsiteRow>, sid: i32, url: Seq<char>)
    requires
        web_has(rows, sid, url),
    ensures
        web_sid_has(rows, sid),
{
    let i = choose|i: int| 0 <= i < rows.len() && rows[i].sid == sid && rows[i].url@ == url;
    assert(rows[i].sid == sid);
}

/// A discovered company has a held website.
pub proof fn lemma_web_sid_has_some(rows: Seq<WebsiteRow>, sid: i32)
    requires
        web_sid_has(rows, sid),
    ensures
        exists|u: Seq<char>| web_has(rows, sid, u),
{
    let i = choose|i: int| 0 <= i < rows.len() && rows[i].sid == sid;
    assert(web_has(rows, sid, rows[i].url@));
}

/// A held flag witnesses the website pair.
pub proof fn lemma_web_flag_has(rows: Seq<WebsiteRow>, sid: i32, url: Seq<char>, f: bool)
    requires
        web_flag_is(rows, sid, url, f),
    ensures
        web_has(rows, sid, url),
        web_sid_has(rows, sid),
{
    let i = choose|i: int|
        0 <= i < rows.len() && rows[i].sid == sid && rows[i].url@ == url && rows[i].has_captcha
            == f;
    assert(rows[i].sid == sid && rows[i].url@ == url);
}

/// A held website pair carries exactly one flag.
pub proof fn lemma_web_some_flag(rows: Seq<WebsiteRow>, sid: i32, url: Seq<char>)
    requires
        web_has(rows, sid, url),
    ensures
        exists|f: bool| web_flag_is(rows, sid, url, f),
{
    let i = choose|i: int| 0 <= i < rows.len() && rows[i].sid == sid && rows[i].url@ == url;
    assert(web_flag_is(rows, sid, url, rows[i].has_captcha));
}

/// A mapping witnesses both of its keys.
pub proof fn lemma_cik_maps_keys(rows: Seq<CikRow>, cik: i32, sid: i32)
    requires
        cik_maps(rows, cik, sid),
    ensures
        cik_has(rows, cik),
        cik_sid_has(rows, sid),
{
    let i = choose|i: int| 0 <= i < rows.len() && rows[i].cik == cik && rows[i].sid == sid;
    assert(rows[i].cik == cik && rows[i].sid == sid);
}

/// A known regulatory id maps to some surrogate id, and a mapped surrogate
/// id has some regulatory id.
pub proof fn lemma_cik_keys_have_maps(rows: Seq<CikRow>)
    ensures
        forall|c: i32| #[trigger] cik_has(rows, c) ==> exists|s: i32| cik_maps(rows, c, s),
        forall|s: i32| #[trigger] cik_sid_has(rows, s) ==> exists|c: i32| cik_maps(rows, c, s),
{
    assert forall|c: i32| #[trigger] cik_has(rows, c) implies exists|s: i32|
        cik_maps(rows, c, s) by {
        let i = choose|i: int| 0 <= i < rows.len() && rows[i].cik == c;
        assert(cik_maps(rows, c, rows[i].sid));
    }
    assert forall|s: i32| #[trigger] cik_sid_has(rows, s) implies exists|c: i32|
        cik_maps(rows, c, s) by {
        let i = choose|i: int| 0 <= i < rows.len() && rows[i].sid == s;
        assert(cik_maps(rows, rows[i].cik, s));
    }
}

/// With unique regulatory ids, a cik maps to at most one surrogate id.
pub proof fn lemma_cik_maps_functional(rows: Seq<CikRow>, cik: i32, s1: i32, s2: i32)
    requires
        ciks_unique(rows),
        cik_maps(rows, cik, s1),
        cik_maps(rows, cik, s2),
    ensures
        s1 == s2,
{
    let i = choose|i: int| 0 <= i < rows.len() && rows[i].cik == cik && rows[i].sid == s1;
    let j = choose|j: int| 0 <= j < rows.len() && rows[j].cik == cik && rows[j].sid == s2;
    if i != j {
        assert(rows[i].cik != rows[j].cik);
    }
}

/// Pushing onto a list of ids extends what it holds by the new id.
pub proof fn lemma_sid_push(s: Seq<i32>, x: i32)
    ensures
        forall|y: i32| #[trigger] s.push(x).contains(y) <==> s.contains(y) || y == x,
{
    let pushed = s.push(x);
    assert forall|y: i32| #[trigger] pushed.contains(y) implies s.contains(y) || y == x by {
        let k = choose|k: int| 0 <= k < pushed.len() && #[trigger] pushed[k] == y;
        if k < s.len() {
            assert(s[k] == y);
        }
    }
    assert forall|y: i32| s.contains(y) || y == x implies #[trigger] pushed.contains(y) by {
        if s.contains(y) {
            let k = choose|k: int| 0 <= k < s.len() && #[trigger] s[k] == y;
            assert(pushed[k] == y);
        } else {
            assert(pushed[s.len() as int] == y);
        }
    }
}


/// A prefix of a list of ids, one id longer.
pub proof fn lemma_sid_take_succ(s: Seq<i32>, i: int)
    requires
        0 <= i < s.len(),
    ensures
        forall|y: i32| #[trigger] s.take(i + 1).contains(y) <==> s.take(i).contains(y) || y == s[i],
{
    assert(s.take(i + 1) =~= s.take(i).push(s[i]));
    lemma_sid_push(s.take(i), s[i]);
}

/// A whole list of ids is its own length-long prefix.
pub proof fn lemma_sid_take_all(s: Seq<i32>)
    ensures
        s.take(s.len() as int) == s,
{
    assert(s.take(s.len() as int) =~= s);
}

/// A prefix of a list of strings, one string longer.
pub proof fn lemma_strings_take_succ(ss: Seq<String>, i: int)
    requires
        0 <= i < ss.len(),
    ensures
        forall|t: Seq<char>|
            #[trigger] strings_have(ss.take(i + 1), t) <==> strings_have(ss.take(i), t) || t
                == ss[i]@,
{
    assert(ss.take(i + 1) =~= ss.take(i).push(ss[i]));
    assert forall|t: Seq<char>| #[trigger]
        strings_have(ss.take(i + 1), t) implies strings_have(ss.take(i), t) || t == ss[i]@ by {
        let k = choose|k: int| 0 <= k < ss.take(i + 1).len() && #[trigger] ss.take(i + 1)[k]@ == t;
        if k < i {
            assert(ss.take(i)[k]@ == t);
        }
    }
    assert forall|t: Seq<char>|
        strings_have(ss.take(i), t) || t == ss[i]@ implies #[trigger] strings_have(
        ss.take(i + 1),
        t,
    ) by {
        if strings_have(ss.take(i), t) {
            let k = choose|k: int| 0 <= k < ss.take(i).len() && #[trigger] ss.take(i)[k]@ == t;
            assert(ss.take(i + 1)[k]@ == t);
        } else {
            assert(ss.take(i + 1)[i]@ == t);
        }
    }
}

/// A whole list of strings is its own length-long prefix.
pub proof fn lemma_strings_take_all(ss: Seq<String>)
    ensures
        ss.take(ss.len() as int) == ss,
{
    assert(ss.take(ss.len() as int) =~= ss);
}

// ------------------------------------------------------------------------
// further lookups

/// The unique fact of `sid` (career page), if any.
pub fn fact_lookup(rows: &Vec<FactRow>, sid: i32) -> (r: Option<String>)
    ensures
        match r {
            Some(t) => fact_has(rows@, sid, t@),
            None => !fact_sid_has(rows@, sid),
        },
{
    let mut i: usize = 0;
    while i < rows.len()
        invariant
            i <= rows@.len(),
            forall|k: int| 0 <= k < i ==> rows@[k].sid != sid,
        decreases rows@.len() - i,
    {
        if rows[i].sid == sid {
            let t = rows[i].text.clone();
            assert(rows@[i as int].sid == sid && rows@[i as int].text@ == t@);
            return Some(t);
        }
        i += 1;
    }
    None
}

/// A company that holds `text` as a fact, if any does.
pub fn fact_lookup_sid(rows: &Vec<FactRow>, text: &String) -> (r: Option<i32>)
    ensures
        match r {
            Some(s) => fact_has(rows@, s, text@),
            None => forall|s: i32| !fact_has(rows@, s, text@),
        },
{
    let mut i: usize = 0;
    while i < rows.len()
        invariant
            i <= rows@.len(),
            forall|k: int| 0 <= k < i ==> rows@[k].text@ != text@,
        decreases rows@.len() - i,
    {
        if rows[i].text == *text {
            let s = rows[i].sid;
            assert(rows@[i as int].sid == s && rows@[i as int].text@ == text@);
            return Some(s);
        }
        i += 1;
    }
    assert forall|s: i32| !fact_has(rows@, s, text@) by {
        if fact_has(rows@, s, text@) {
            let k = choose|k: int|
                0 <= k < rows@.len() && rows@[k].sid == s && rows@[k].text@ == text@;
        }
    }
    None
}

} // verus!
