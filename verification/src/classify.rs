//! Helpers for the classify → review → apply pipeline.
//!
//! The model's answer is untrusted input: paths are normalized and
//! canonicalized against the real collection tree, and the "is this new?"
//! flag is recomputed here rather than believed.

use vstd::prelude::*;

use crate::error::{Error, Result};
use crate::llm::provider::{AuditRequest, AuditResponse, ClassifyRequest, ClassifyResponse};
use crate::models::{pair_views, 
    all_paths_spec, clone_opt, clone_strings, collection_path_spec, opt_view, path_views, views,
    AuditProposal, ClassificationProposal, Collection, Item, Library, MAX_PATH_LOOKUPS,
    UNCLASSIFIED_COLLECTION,
};
use crate::text::{
    chars_of, eq_ci, eq_ci_str, fit_prefix, fit_prefix_exec, seq_lt, slice_chars,
    str_lower, str_lt, string_of, to_lowercase, trim, trim_chars, trim_str, utf8_len,
};

verus! {

/// Deepest collection path a proposal may have.
pub const MAX_DEPTH: usize = 3;

/// Message of the error for a path with no non-blank segment.
pub const EMPTY_PATH_MESSAGE: &'static str = "the model returned an empty collection path";

/// Message of the error for a path rooted at the Unclassified collection.
pub const UNCLASSIFIED_TARGET_MESSAGE: &'static str =
    "the model proposed the Unclassified collection as a target";

/// The trimmed, non-blank segments of a raw path, in order.
pub open spec fn clean_segments(raw: Seq<Seq<char>>) -> Seq<Seq<char>>
    decreases raw.len(),
{
    if raw.len() == 0 {
        seq![]
    } else {
        let r = clean_segments(raw.drop_last());
        let t = trim(raw.last());
        if t.len() > 0 {
            r.push(t)
        } else {
            r
        }
    }
}

/// Index of the first collection at or after `i` under `parent` whose name
/// matches `seg` (trimmed, ASCII case-insensitive).
pub open spec fn find_child_from(cols: Seq<Collection>, parent: Option<Seq<char>>, seg: Seq<char>, i: int) -> Option<int>
    decreases cols.len() - i,
{
    if i < 0 || i >= cols.len() {
        None
    } else if opt_view(cols[i].parent_key) == parent && eq_ci(cols[i].name@, seg) {
        Some(i)
    } else {
        find_child_from(cols, parent, seg, i + 1)
    }
}

/// Index of the first collection under `parent` whose name matches `seg`.
pub open spec fn find_child(cols: Seq<Collection>, parent: Option<Seq<char>>, seg: Seq<char>) -> Option<int> {
    find_child_from(cols, parent, seg, 0)
}

/// Canonicalization of `segs[i..]` below the collection keyed `parent`:
/// while a sibling matches, its exact name is adopted; the first miss keeps
/// the rest as proposed and marks the path as new.
pub open spec fn walk_from(cols: Seq<Collection>, segs: Seq<Seq<char>>, i: int, parent: Option<Seq<char>>) -> (Seq<Seq<char>>, bool)
    decreases segs.len() - i,
{
    if i >= segs.len() || i < 0 {
        (seq![], false)
    } else {
        match find_child(cols, parent, segs[i]) {
            Some(j) => {
                let rest = walk_from(cols, segs, i + 1, Some(cols[j].key@));
                (seq![cols[j].name@] + rest.0, rest.1)
            },
            None => (segs.subrange(i, segs.len() as int), true),
        }
    }
}

/// The normalized form of a raw proposed path: `Ok((path, is_new))`, or
/// `Err(message)` when it cannot be a target.
pub open spec fn normalize_path_spec(raw: Seq<Seq<char>>, cols: Seq<Collection>) -> core::result::Result<
    (Seq<Seq<char>>, bool),
    Seq<char>,
> {
    let cleaned = clean_segments(raw);
    if cleaned.len() == 0 {
        Err(EMPTY_PATH_MESSAGE@)
    } else {
        let path = cleaned.take(
            if cleaned.len() > MAX_DEPTH {
                MAX_DEPTH as int
            } else {
                cleaned.len() as int
            },
        );
        if eq_ci(path[0], UNCLASSIFIED_COLLECTION@) {
            Err(UNCLASSIFIED_TARGET_MESSAGE@)
        } else {
            Ok(walk_from(cols, path, 0, None))
        }
    }
}

/// Whether a normalization outcome matches its specification.
pub open spec fn normalized_as(r: Result<(Vec<String>, bool)>, s: core::result::Result<(Seq<Seq<char>>, bool), Seq<char>>) -> bool {
    match s {
        Ok((p, n)) => r matches Ok((path, is_new)) && views(path@) == p && is_new == n,
        Err(m) => r matches Err(Error::InvalidResponse(msg)) && msg@ == m,
    }
}

fn opt_str_eq(a: &Option<String>, b: &Option<String>) -> (r: bool)
    ensures
        r == (opt_view(*a) == opt_view(*b)),
{
    match (a, b) {
        (Some(x), Some(y)) => *x == *y,
        (None, None) => true,
        _ => false,
    }
}

fn find_child_exec(cols: &Vec<Collection>, parent: &Option<String>, seg: &String) -> (r: Option<usize>)
    ensures
        match r {
            Some(j) => j < cols.len() && find_child(cols@, opt_view(*parent), seg@) == Some(j as int),
            None => find_child(cols@, opt_view(*parent), seg@) is None,
        },
{
    let mut j: usize = 0;
    while j < cols.len()
        invariant
            j <= cols.len(),
            find_child(cols@, opt_view(*parent), seg@) == find_child_from(cols@, opt_view(*parent), seg@, j as int),
        decreases cols.len() - j,
    {
        if opt_str_eq(&cols[j].parent_key, parent) && eq_ci_str(cols[j].name.as_str(), seg.as_str()) {
            return Some(j);
        }
        j += 1;
    }
    None
}

/// Shared path normalization for classify and audit proposals: trims the
/// segments and drops blank ones, keeps at most three levels, refuses an
/// empty path or one rooted at Unclassified, and adopts the exact names of
/// existing collections level by level. The flag tells whether the path
/// creates at least one new collection (computed from the tree).
#[verifier::spinoff_prover]
#[verifier::rlimit(50)]
pub fn normalize_path(raw: &[String], library: &Library) -> (r: Result<(Vec<String>, bool)>)
    ensures
        normalized_as(r, normalize_path_spec(views(raw@), library.collections@)),
{
    let ghost rawv = views(raw@);
    // Trim and drop blank segments.
    let mut path: Vec<String> = Vec::new();
    let mut i: usize = 0;
    while i < raw.len()
        invariant
            i <= raw.len(),
            rawv == views(raw@),
            views(path@) == clean_segments(rawv.take(i as int)),
        decreases raw.len() - i,
    {
        let t = trim_str(raw[i].as_str());
        proof {
            assert(rawv.take(i + 1).drop_last() =~= rawv.take(i as int));
        }
        if !t.as_str().is_empty() {
            let ghost before = path@;
            path.push(t);
            proof {
                assert(views(path@) =~= views(before).push(t@));
            }
        }
        i += 1;
    }
    assert(rawv.take(raw.len() as int) =~= rawv);
    if path.len() == 0 {
        return Err(Error::InvalidResponse(EMPTY_PATH_MESSAGE.to_owned()));
    }
    let ghost cleaned = views(path@);
    if path.len() > MAX_DEPTH {
        path.truncate(MAX_DEPTH);
    }
    assert(views(path@) =~= cleaned.take(path.len() as int));
    if eq_ci_str(path[0].as_str(), UNCLASSIFIED_COLLECTION) {
        return Err(Error::InvalidResponse(UNCLASSIFIED_TARGET_MESSAGE.to_owned()));
    }
    // Walk the existing tree level by level.
    let ghost segs = views(path@);
    let mut out: Vec<String> = Vec::new();
    let mut parent: Option<String> = None;
    let mut k: usize = 0;
    let mut is_new = false;
    while k < path.len()
        invariant_except_break
            !is_new,
        invariant
            k <= path.len(),
            segs == views(path@),
            walk_from(library.collections@, segs, 0, None) == (
                views(out@) + walk_from(library.collections@, segs, k as int, opt_view(parent)).0,
                walk_from(library.collections@, segs, k as int, opt_view(parent)).1,
            ),
        ensures
            is_new ==> walk_from(library.collections@, segs, 0, None) == (
                views(out@) + segs.subrange(k as int, segs.len() as int),
                true,
            ),
            !is_new ==> walk_from(library.collections@, segs, 0, None) == (views(out@), false),
        decreases path.len() - k,
    {
        let found = find_child_exec(&library.collections, &parent, &path[k]);
        match found {
            Some(j) => {
                let c = &library.collections[j];
                let ghost before = out@;
                out.push(c.name.clone());
                proof {
                    assert(views(out@) =~= views(before) + seq![c.name@]);
                    let rest = walk_from(library.collections@, segs, k + 1, Some(c.key@));
                    assert(views(before) + (seq![c.name@] + rest.0) =~= views(out@) + rest.0);
                }
                parent = Some(c.key.clone());
                k += 1;
            },
            None => {
                is_new = true;
                break;
            },
        }
    }
    if !is_new {
        proof {
            assert(views(out@) + Seq::<Seq<char>>::empty() =~= views(out@));
        }
    }
    // Keep the rest of the path as proposed.
    let ghost prefix = views(out@);
    let mut m = k;
    while m < path.len()
        invariant
            k <= m <= path.len(),
            segs == views(path@),
            views(out@) == prefix + segs.subrange(k as int, m as int),
        decreases path.len() - m,
    {
        let ghost before = out@;
        out.push(path[m].clone());
        proof {
            assert(views(out@) =~= views(before).push(segs[m as int]));
            assert(views(out@) =~= prefix + segs.subrange(k as int, m + 1));
        }
        m += 1;
    }
    assert(segs.subrange(k as int, k as int) =~= Seq::<Seq<char>>::empty());
    assert(prefix + Seq::<Seq<char>>::empty() =~= prefix);
    Ok((out, is_new))
}


// --- tag vocabulary -----------------------------------------------------

/// Every tag of every item, in library order.
pub open spec fn all_tags(items: Seq<Item>) -> Seq<Seq<char>>
    decreases items.len(),
{
    if items.len() == 0 {
        seq![]
    } else {
        all_tags(items.drop_last()) + views(items.last().tags@)
    }
}

/// One distinct tag: (lower-cased key, first-seen trimmed spelling, uses).
pub type TagCount = (Seq<char>, Seq<char>, nat);

/// Position of the entry keyed `k` (searching from the end), or -1.
pub open spec fn find_key(t: Seq<TagCount>, k: Seq<char>) -> int
    decreases t.len(),
{
    if t.len() == 0 {
        -1
    } else if t.last().0 == k {
        t.len() - 1
    } else {
        find_key(t.drop_last(), k)
    }
}

/// The non-blank tags, trimmed, each with its lower-cased form, in order.
pub open spec fn keyed_tags(tags: Seq<Seq<char>>) -> Seq<(Seq<char>, Seq<char>)>
    decreases tags.len(),
{
    if tags.len() == 0 {
        seq![]
    } else {
        let r = keyed_tags(tags.drop_last());
        let t = trim(tags.last());
        if t.len() == 0 {
            r
        } else {
            r.push((t, str_lower(t)))
        }
    }
}

/// Tally of (spelling, key) pairs by key, in first-seen order; each entry
/// keeps the first spelling seen.
pub open spec fn tally_keyed(k: Seq<(Seq<char>, Seq<char>)>) -> Seq<TagCount>
    decreases k.len(),
{
    if k.len() == 0 {
        seq![]
    } else {
        let r = tally_keyed(k.drop_last());
        let (t, key) = k.last();
        let j = find_key(r, key);
        if j >= 0 {
            r.update(j, (r[j].0, r[j].1, r[j].2 + 1))
        } else {
            r.push((key, t, 1))
        }
    }
}

/// Case-insensitive tally of the non-blank tags, in first-seen order.
pub open spec fn tally(tags: Seq<Seq<char>>) -> Seq<TagCount> {
    tally_keyed(keyed_tags(tags))
}

/// Whether `a` is listed before `b`: more uses first, ties alphabetical.
pub open spec fn ranks_before(a: TagCount, b: TagCount) -> bool {
    a.2 > b.2 || (a.2 == b.2 && seq_lt(a.1, b.1))
}

/// `x` inserted into `s` before the first entry it ranks before.
pub open spec fn insert_ranked(s: Seq<TagCount>, x: TagCount) -> Seq<TagCount>
    decreases s.len(),
{
    if s.len() == 0 {
        seq![x]
    } else if ranks_before(x, s[0]) {
        seq![x] + s
    } else {
        seq![s[0]] + insert_ranked(s.drop_first(), x)
    }
}

/// The entries of `t` in rank order.
pub open spec fn rank_order(t: Seq<TagCount>) -> Seq<TagCount>
    decreases t.len(),
{
    if t.len() == 0 {
        seq![]
    } else {
        insert_ranked(rank_order(t.drop_last()), t.last())
    }
}

/// The spellings of the first `limit` entries of `t`.
pub open spec fn top_spellings(t: Seq<TagCount>, limit: nat) -> Seq<Seq<char>> {
    let n = if limit < t.len() {
        limit as int
    } else {
        t.len() as int
    };
    Seq::new(n as nat, |i: int| t[i].1)
}

/// The library's `limit` most-used tags (case-insensitive), most frequent
/// first, ties alphabetical, each in its first-seen spelling.
pub open spec fn popular_tags_spec(items: Seq<Item>, limit: nat) -> Seq<Seq<char>> {
    top_spellings(rank_order(tally(all_tags(items))), limit)
}

struct TagEntry {
    key: String,
    display: String,
    count: usize,
}

spec fn entry_view(e: TagEntry) -> TagCount {
    (e.key@, e.display@, e.count as nat)
}

spec fn entries_view(v: Seq<TagEntry>) -> Seq<TagCount> {
    Seq::new(v.len(), |i: int| entry_view(v[i]))
}

proof fn lemma_tally_counts(k: Seq<(Seq<char>, Seq<char>)>)
    ensures
        forall|i: int| 0 <= i < tally_keyed(k).len() ==> #[trigger] tally_keyed(k)[i].2 <= k.len(),
        tally_keyed(k).len() <= k.len(),
    decreases k.len(),
{
    if k.len() > 0 {
        lemma_tally_counts(k.drop_last());
        let r = tally_keyed(k.drop_last());
        lemma_find_key_range(r, k.last().1);
    }
}

proof fn lemma_find_key_range(t: Seq<TagCount>, k: Seq<char>)
    ensures
        -1 <= find_key(t, k) < t.len(),
        find_key(t, k) >= 0 ==> t[find_key(t, k)].0 == k,
    decreases t.len(),
{
    if t.len() > 0 {
        lemma_find_key_range(t.drop_last(), k);
    }
}

fn find_key_exec(v: &Vec<TagEntry>, k: &String) -> (r: Option<usize>)
    ensures
        match r {
            Some(j) => j < v.len() && find_key(entries_view(v@), k@) == j as int,
            None => find_key(entries_view(v@), k@) == -1,
        },
{
    let mut j = v.len();
    assert(entries_view(v@).take(j as int) =~= entries_view(v@));
    while j > 0
        invariant
            j <= v.len(),
            find_key(entries_view(v@), k@) == find_key(entries_view(v@).take(j as int), k@),
        decreases j,
    {
        let ghost t = entries_view(v@).take(j as int);
        assert(t.drop_last() =~= entries_view(v@).take(j - 1));
        if v[j - 1].key == *k {
            return Some(j - 1);
        }
        j -= 1;
    }
    None
}

fn all_tags_exec(items: &Vec<Item>) -> (r: Vec<String>)
    ensures
        views(r@) == all_tags(items@),
{
    let mut r: Vec<String> = Vec::new();
    let mut i: usize = 0;
    while i < items.len()
        invariant
            i <= items.len(),
            views(r@) == all_tags(items@.take(i as int)),
        decreases items.len() - i,
    {
        let ghost base = views(r@);
        let tags = &items[i].tags;
        let mut j: usize = 0;
        while j < tags.len()
            invariant
                i < items.len(),
                *tags == items@[i as int].tags,
                j <= tags.len(),
                views(r@) == base + views(tags@.take(j as int)),
            decreases tags.len() - j,
        {
            let ghost before = r@;
            r.push(tags[j].clone());
            proof {
                assert(views(tags@.take(j + 1)) =~= views(tags@.take(j as int)).push(tags@[j as int]@));
                assert(views(r@) =~= views(before).push(tags@[j as int]@));
                assert(views(r@) =~= base + views(tags@.take(j + 1)));
            }
            j += 1;
        }
        proof {
            assert(tags@.take(tags.len() as int) =~= tags@);
            assert(items@.take(i + 1).drop_last() =~= items@.take(i as int));
        }
        i += 1;
    }
    assert(items@.take(items.len() as int) =~= items@);
    r
}

proof fn lemma_insert_at(s: Seq<TagCount>, x: TagCount, p: int)
    requires
        0 <= p <= s.len(),
        forall|k: int| 0 <= k < p ==> !ranks_before(x, #[trigger] s[k]),
        p < s.len() ==> ranks_before(x, s[p]),
    ensures
        insert_ranked(s, x) == s.take(p) + seq![x] + s.skip(p),
    decreases p,
{
    if p == 0 {
        assert(s.skip(0) =~= s);
        if s.len() > 0 {
            assert(seq![x] + s =~= s.take(0) + seq![x] + s.skip(0));
        } else {
            assert(seq![x] =~= s.take(0) + seq![x] + s.skip(0));
        }
    } else {
        lemma_insert_at(s.drop_first(), x, p - 1);
        assert(seq![s[0]] + (s.drop_first().take(p - 1) + seq![x] + s.drop_first().skip(p - 1))
            =~= s.take(p) + seq![x] + s.skip(p));
    }
}

fn ranks_before_exec(a: &TagEntry, b: &TagEntry) -> (r: bool)
    ensures
        r == ranks_before(entry_view(*a), entry_view(*b)),
{
    a.count > b.count || (a.count == b.count && str_lt(a.display.as_str(), b.display.as_str()))
}

/// The non-blank tags of every item, trimmed, each with its lower-cased
/// form: the lower-casing behind [`popular_tags`].
pub fn tag_keys(items: &Vec<Item>) -> (r: Vec<(String, String)>)
    ensures
        pair_views(r@) == keyed_tags(all_tags(items@)),
{
    let flat = all_tags_exec(items);
    let ghost tags = views(flat@);
    let mut r: Vec<(String, String)> = Vec::new();
    let mut i: usize = 0;
    while i < flat.len()
        invariant
            i <= flat.len(),
            tags == views(flat@),
            pair_views(r@) == keyed_tags(tags.take(i as int)),
        decreases flat.len() - i,
    {
        proof {
            assert(tags.take(i + 1).drop_last() =~= tags.take(i as int));
        }
        let t = trim_str(flat[i].as_str());
        if !t.as_str().is_empty() {
            let k = to_lowercase(t.as_str());
            let ghost before = r@;
            r.push((t, k));
            proof {
                assert(pair_views(r@) =~= pair_views(before).push((t@, k@)));
            }
        }
        i += 1;
    }
    assert(tags.take(flat.len() as int) =~= tags);
    r
}

/// The library's most-used tags, most frequent first (ties alphabetical).
/// Tags are counted case-insensitively after trimming; each is shown in the
/// spelling it first appeared with.
pub fn popular_tags(library: &Library, limit: usize) -> (r: Vec<String>)
    ensures
        views(r@) == popular_tags_spec(library.items@, limit as nat),
{
    rank_tags(&tag_keys(&library.items), limit)
}

/// The first `limit` spellings of (spelling, key) pairs tallied by key and
/// ranked: more uses first, ties alphabetical.
pub fn rank_tags(keyed: &Vec<(String, String)>, limit: usize) -> (r: Vec<String>)
    ensures
        views(r@) == top_spellings(rank_order(tally_keyed(pair_views(keyed@))), limit as nat),
{
    let ghost kv = pair_views(keyed@);
    // Tally in first-seen order.
    let mut entries: Vec<TagEntry> = Vec::new();
    let mut i: usize = 0;
    while i < keyed.len()
        invariant
            i <= keyed.len(),
            kv == pair_views(keyed@),
            entries_view(entries@) == tally_keyed(kv.take(i as int)),
        decreases keyed.len() - i,
    {
        proof {
            assert(kv.take(i + 1).drop_last() =~= kv.take(i as int));
            lemma_tally_counts(kv.take(i as int));
        }
        let t = keyed[i].0.clone();
        let k = keyed[i].1.clone();
        match find_key_exec(&entries, &k) {
            Some(j) => {
                let ghost before = entries_view(entries@);
                proof {
                    assert(before[j as int].2 <= i);
                }
                let c = entries[j].count + 1;
                let mut e = entries.remove(j);
                e.count = c;
                entries.insert(j, e);
                proof {
                    assert(entries_view(entries@) =~= before.update(
                        j as int,
                        (before[j as int].0, before[j as int].1, before[j as int].2 + 1),
                    ));
                }
            },
            None => {
                let ghost before = entries_view(entries@);
                entries.push(TagEntry { key: k, display: t, count: 1 });
                proof {
                    assert(entries_view(entries@) =~= before.push((k@, t@, 1)));
                }
            },
        }
        i += 1;
    }
    assert(kv.take(keyed.len() as int) =~= kv);
    let ghost counted = entries_view(entries@);
    // Rank.
    let mut ranked: Vec<TagEntry> = Vec::new();
    while entries.len() > 0
        invariant
            entries_view(entries@) == counted.skip(counted.len() - entries.len()),
            entries.len() <= counted.len(),
            entries_view(ranked@) == rank_order(counted.take(counted.len() - entries.len())),
        decreases entries.len(),
    {
        let ghost n = counted.len() - entries.len();
        let ghost old_entries = entries@;
        proof {
            assert(entries_view(old_entries)[0] == counted.skip(n)[0]);
        }
        let x = entries.remove(0);
        let ghost s = entries_view(ranked@);
        let mut p: usize = 0;
        while p < ranked.len() && !ranks_before_exec(&x, &ranked[p])
            invariant
                p <= ranked.len(),
                s == entries_view(ranked@),
                forall|k: int| 0 <= k < p ==> !ranks_before(entry_view(x), #[trigger] s[k]),
            decreases ranked.len() - p,
        {
            p += 1;
        }
        proof {
            lemma_insert_at(s, entry_view(x), p as int);
            assert(counted.take(n + 1).drop_last() =~= counted.take(n));
            assert(counted.take(n + 1).last() == entry_view(x));
        }
        ranked.insert(p, x);
        proof {
            assert(entries_view(ranked@) =~= s.take(p as int) + seq![entry_view(x)] + s.skip(p as int));
            assert(entries@ =~= old_entries.drop_first());
            assert(entries_view(entries@) =~= entries_view(old_entries).drop_first());
            assert(counted.skip(n).drop_first() =~= counted.skip(n + 1));
            assert(entries_view(entries@) =~= counted.skip(n + 1));
        }
    }
    assert(counted.take(counted.len() as int) =~= counted);
    // Take the first `limit` spellings.
    let mut r: Vec<String> = Vec::new();
    let mut m: usize = 0;
    while m < ranked.len() && m < limit
        invariant
            m <= ranked.len(),
            m <= limit,
            views(r@) == Seq::new(m as nat, |i: int| entries_view(ranked@)[i].1),
        decreases ranked.len() - m,
    {
        let ghost before = r@;
        r.push(ranked[m].display.clone());
        proof {
            assert(views(r@) =~= views(before).push(entries_view(ranked@)[m as int].1));
            assert(views(r@) =~= Seq::new((m + 1) as nat, |i: int| entries_view(ranked@)[i].1));
        }
        m += 1;
    }
    proof {
        assert(views(r@) =~= top_spellings(entries_view(ranked@), limit as nat));
    }
    r
}


/// How many of the library's most-used tags the classifier prompt advertises.
pub const TAG_VOCAB_SIZE: usize = 40;
/// Most tags a proposal may suggest.
pub const MAX_SUGGESTED_TAGS: usize = 4;
/// Longest suggested tag, in UTF-8 bytes.
pub const MAX_TAG_LEN: usize = 50;
/// Longest rationale kept, in UTF-8 bytes (before the ellipsis).
pub const MAX_RATIONALE: usize = 500;

/// Whether a path starts at the Unclassified root.
pub open spec fn rooted_at_unclassified(p: Seq<Seq<char>>) -> bool {
    p.len() > 0 && eq_ci(p[0], UNCLASSIFIED_COLLECTION@)
}

/// The paths not rooted at Unclassified, in order.
pub open spec fn filed_paths(paths: Seq<Seq<Seq<char>>>) -> Seq<Seq<Seq<char>>>
    decreases paths.len(),
{
    if paths.len() == 0 {
        seq![]
    } else {
        let r = filed_paths(paths.drop_last());
        if rooted_at_unclassified(paths.last()) {
            r
        } else {
            r.push(paths.last())
        }
    }
}

fn is_rooted_at_unclassified(p: &Vec<String>) -> (r: bool)
    ensures
        r == rooted_at_unclassified(views(p@)),
{
    p.len() > 0 && eq_ci_str(p[0].as_str(), UNCLASSIFIED_COLLECTION)
}

/// Build the LLM request for one item, advertising every existing collection
/// path except the Unclassified tree itself, plus the tag vocabulary.
pub fn build_request(item: &Item, library: &Library) -> (r: ClassifyRequest)
    ensures
        r.title == item.title,
        r.creators@ == item.creators@,
        r.year == item.year,
        r.publication == item.publication,
        r.abstract_text == item.abstract_text,
        r.tags@ == item.tags@,
        path_views(r.existing_paths@) == filed_paths(
            all_paths_spec(library.collections@, library.collections@.len() as int),
        ),
        views(r.existing_tags@) == popular_tags_spec(library.items@, TAG_VOCAB_SIZE as nat),
{
    let all = library.all_paths();
    let ghost allv = path_views(all@);
    let mut existing_paths: Vec<Vec<String>> = Vec::new();
    let mut i: usize = 0;
    while i < all.len()
        invariant
            i <= all.len(),
            allv == path_views(all@),
            path_views(existing_paths@) == filed_paths(allv.take(i as int)),
        decreases all.len() - i,
    {
        proof {
            assert(allv.take(i + 1).drop_last() =~= allv.take(i as int));
        }
        if !is_rooted_at_unclassified(&all[i]) {
            let ghost before = existing_paths@;
            existing_paths.push(clone_strings(&all[i]));
            proof {
                assert(path_views(existing_paths@) =~= path_views(before).push(allv[i as int]));
            }
        }
        i += 1;
    }
    assert(allv.take(all.len() as int) =~= allv);
    ClassifyRequest {
        title: item.title.clone(),
        creators: clone_strings(&item.creators),
        year: item.year,
        publication: clone_opt(&item.publication),
        abstract_text: clone_opt(&item.abstract_text),
        tags: clone_strings(&item.tags),
        existing_paths,
        existing_tags: popular_tags(library, TAG_VOCAB_SIZE),
    }
}

/// The spelling of the first (spelling, key) entry keyed `l`.
pub open spec fn first_key_match(v: Seq<(Seq<char>, Seq<char>)>, l: Seq<char>) -> Option<Seq<char>>
    decreases v.len(),
{
    if v.len() == 0 {
        None
    } else if v[0].1 == l {
        Some(v[0].0)
    } else {
        first_key_match(v.drop_first(), l)
    }
}

/// Lower-cased trimmed forms of `tags`.
pub open spec fn tag_lowers(tags: Seq<Seq<char>>) -> Seq<Seq<char>> {
    Seq::new(tags.len(), |i: int| str_lower(trim(tags[i])))
}

/// Each raw suggestion trimmed, with its lower-cased form.
pub open spec fn keyed_suggestions(raw: Seq<Seq<char>>) -> Seq<(Seq<char>, Seq<char>)> {
    Seq::new(raw.len(), |i: int| (trim(raw[i]), str_lower(trim(raw[i]))))
}

/// Each vocabulary entry with its lower-cased form.
pub open spec fn keyed_vocab(vocab: Seq<Seq<char>>) -> Seq<(Seq<char>, Seq<char>)> {
    Seq::new(vocab.len(), |i: int| (vocab[i], str_lower(vocab[i])))
}

/// Suggested-tag cleaning state: (accepted tags, their lower-cased forms).
pub type TagState = (Seq<Seq<char>>, Seq<Seq<char>>);

/// One (trimmed tag, lower-cased form) suggestion applied to the state.
pub open spec fn suggest_step(st: TagState, sug: (Seq<char>, Seq<char>), item_lowers: Seq<Seq<char>>, vocab: Seq<(Seq<char>, Seq<char>)>) -> TagState {
    let (tag, lower) = sug;
    if st.0.len() >= MAX_SUGGESTED_TAGS || tag.len() == 0 || utf8_len(tag) > MAX_TAG_LEN {
        st
    } else if item_lowers.contains(lower) || st.1.contains(lower) {
        st
    } else {
        let canonical = match first_key_match(vocab, lower) {
            Some(v) => v,
            None => tag,
        };
        (st.0.push(canonical), st.1.push(lower))
    }
}

/// The state after the first `n` suggestions.
pub open spec fn suggest_fold(sugs: Seq<(Seq<char>, Seq<char>)>, n: int, item_lowers: Seq<Seq<char>>, vocab: Seq<(Seq<char>, Seq<char>)>) -> TagState
    decreases n,
{
    if n <= 0 {
        (seq![], seq![])
    } else {
        suggest_step(suggest_fold(sugs, n - 1, item_lowers, vocab), sugs[n - 1], item_lowers, vocab)
    }
}

/// Cleaned suggestions: trimmed, without blank or overlong ones, without
/// case-insensitive duplicates or tags the item already has, in the
/// library's spelling where the tag exists, at most four.
pub open spec fn normalize_tags_spec(raw: Seq<Seq<char>>, item: Item, library: Library) -> Seq<Seq<char>> {
    suggest_fold(
        keyed_suggestions(raw),
        raw.len() as int,
        tag_lowers(views(item.tags@)),
        keyed_vocab(popular_tags_spec(library.items@, usize::MAX as nat)),
    ).0
}

fn contains_string(v: &Vec<String>, s: &String) -> (r: bool)
    ensures
        r == views(v@).contains(s@),
{
    let mut i: usize = 0;
    while i < v.len()
        invariant
            i <= v.len(),
            forall|k: int| 0 <= k < i ==> v@[k]@ != s@,
        decreases v.len() - i,
    {
        if v[i] == *s {
            assert(views(v@)[i as int] == s@);
            return true;
        }
        i += 1;
    }
    proof {
        if views(v@).contains(s@) {
            let k = choose|k: int| 0 <= k < views(v@).len() && views(v@)[k] == s@;
            assert(v@[k]@ == s@);
        }
    }
    false
}

fn first_key_match_exec(v: &Vec<(String, String)>, l: &String) -> (r: Option<String>)
    ensures
        opt_view(r) == first_key_match(pair_views(v@), l@),
{
    let mut i: usize = 0;
    assert(pair_views(v@).skip(0) =~= pair_views(v@));
    while i < v.len()
        invariant
            i <= v.len(),
            first_key_match(pair_views(v@), l@) == first_key_match(pair_views(v@).skip(i as int), l@),
        decreases v.len() - i,
    {
        proof {
            assert(pair_views(v@).skip(i as int)[0] == (v@[i as int].0@, v@[i as int].1@));
            assert(pair_views(v@).skip(i as int).drop_first() =~= pair_views(v@).skip(i + 1));
        }
        if v[i].1 == *l {
            return Some(v[i].0.clone());
        }
        i += 1;
    }
    None
}

/// Cleans (trimmed tag, lower-cased form) suggestions against the item's
/// lower-cased tags and the (spelling, lower-cased form) vocabulary: what
/// follows the lower-casing in [`normalize_tags`].
pub fn clean_suggestions(sugs: &Vec<(String, String)>, item_lowers: &Vec<String>, vocab: &Vec<(String, String)>) -> (r: Vec<String>)
    ensures
        views(r@) == suggest_fold(pair_views(sugs@), sugs@.len() as int, views(item_lowers@), pair_views(vocab@)).0,
{
    let ghost sv = pair_views(sugs@);
    let ghost lowers = views(item_lowers@);
    let ghost vv = pair_views(vocab@);
    let mut seen: Vec<String> = Vec::new();
    let mut out: Vec<String> = Vec::new();
    let mut k: usize = 0;
    while k < sugs.len()
        invariant
            k <= sugs.len(),
            sv == pair_views(sugs@),
            lowers == views(item_lowers@),
            vv == pair_views(vocab@),
            (views(out@), views(seen@)) == suggest_fold(sv, k as int, lowers, vv),
        decreases sugs.len() - k,
    {
        let tag = &sugs[k].0;
        let lower = &sugs[k].1;
        if out.len() < MAX_SUGGESTED_TAGS && !tag.as_str().is_empty() {
            let tv = chars_of(tag.as_str());
            let (_, fits) = fit_prefix_exec(&tv, MAX_TAG_LEN);
            if fits {
                if !contains_string(item_lowers, lower) && !contains_string(&seen, lower) {
                    let canonical = match first_key_match_exec(vocab, lower) {
                        Some(v) => v,
                        None => tag.clone(),
                    };
                    let ghost o = out@;
                    let ghost s = seen@;
                    out.push(canonical);
                    seen.push(lower.clone());
                    proof {
                        assert(views(out@) =~= views(o).push(canonical@));
                        assert(views(seen@) =~= views(s).push(lower@));
                    }
                }
            }
        }
        k += 1;
    }
    out
}

/// Clean up model-suggested tags: trim, drop empties/overlong ones, dedupe
/// case-insensitively, skip tags the item already has, canonicalize casing
/// to the library's existing vocabulary, cap the count.
pub fn normalize_tags(raw: &[String], item: &Item, library: &Library) -> (r: Vec<String>)
    ensures
        views(r@) == normalize_tags_spec(views(raw@), *item, *library),
{
    let vocab = popular_tags(library, usize::MAX);
    let mut vk: Vec<(String, String)> = Vec::new();
    let mut i: usize = 0;
    while i < vocab.len()
        invariant
            i <= vocab.len(),
            pair_views(vk@) == keyed_vocab(views(vocab@)).take(i as int),
        decreases vocab.len() - i,
    {
        let ghost before = vk@;
        let low = to_lowercase(vocab[i].as_str());
        vk.push((vocab[i].clone(), low));
        proof {
            assert(pair_views(vk@) =~= pair_views(before).push((vocab@[i as int]@, low@)));
            assert(pair_views(vk@) =~= keyed_vocab(views(vocab@)).take(i + 1));
        }
        i += 1;
    }
    assert(keyed_vocab(views(vocab@)).take(vocab.len() as int) =~= keyed_vocab(views(vocab@)));
    let mut item_lowers: Vec<String> = Vec::new();
    let mut i: usize = 0;
    while i < item.tags.len()
        invariant
            i <= item.tags.len(),
            views(item_lowers@) == tag_lowers(views(item.tags@)).take(i as int),
        decreases item.tags.len() - i,
    {
        let t = trim_str(item.tags[i].as_str());
        let ghost before = item_lowers@;
        item_lowers.push(to_lowercase(t.as_str()));
        proof {
            assert(views(item.tags@)[i as int] == item.tags@[i as int]@);
            assert(views(item_lowers@) =~= views(before).push(str_lower(trim(views(item.tags@)[i as int]))));
            assert(views(item_lowers@) =~= tag_lowers(views(item.tags@)).take(i + 1));
        }
        i += 1;
    }
    assert(tag_lowers(views(item.tags@)).take(item.tags.len() as int) =~= tag_lowers(views(item.tags@)));
    let mut sugs: Vec<(String, String)> = Vec::new();
    let mut k: usize = 0;
    while k < raw.len()
        invariant
            k <= raw.len(),
            pair_views(sugs@) == keyed_suggestions(views(raw@)).take(k as int),
        decreases raw.len() - k,
    {
        let tag = trim_str(raw[k].as_str());
        let low = to_lowercase(tag.as_str());
        let ghost before = sugs@;
        sugs.push((tag, low));
        proof {
            assert(views(raw@)[k as int] == raw@[k as int]@);
            assert(pair_views(sugs@) =~= pair_views(before).push((tag@, low@)));
            assert(pair_views(sugs@) =~= keyed_suggestions(views(raw@)).take(k + 1));
        }
        k += 1;
    }
    assert(keyed_suggestions(views(raw@)).take(raw.len() as int) =~= keyed_suggestions(views(raw@)));
    clean_suggestions(&sugs, &item_lowers, &vk)
}

/// `s` trimmed and, when longer than the cap in UTF-8 bytes, cut at the last
/// character that fits and ended with an ellipsis.
pub open spec fn trim_rationale_spec(raw: Seq<char>) -> Seq<char> {
    let t = trim(raw);
    if utf8_len(t) > MAX_RATIONALE {
        t.take(fit_prefix(t, MAX_RATIONALE as nat) as int).push('\u{2026}')
    } else {
        t
    }
}

fn trim_rationale(raw: &str) -> (r: String)
    ensures
        r@ == trim_rationale_spec(raw@),
{
    let v = chars_of(raw);
    let t = trim_chars(&v);
    let (n, fits) = fit_prefix_exec(&t, MAX_RATIONALE);
    if fits {
        string_of(&t)
    } else {
        proof {
            crate::text::lemma_fit_prefix_le(t@, MAX_RATIONALE as nat);
        }
        let mut p = slice_chars(&t, 0, n);
        p.push('\u{2026}');
        string_of(&p)
    }
}

/// `f64::clamp(x, 0.0, 1.0)` on the IEEE-754 binary64 encoding of `x`: NaN
/// and negative zero are kept, other negatives become +0.0, values above
/// 1.0 (including +inf) become 1.0.
pub open spec fn clamp_unit_bits(b: u64) -> u64 {
    let exp = (b >> 52u64) & 0x7FFu64;
    let frac = b & 0xF_FFFF_FFFF_FFFFu64;
    if exp == 0x7FFu64 && frac != 0 {
        b
    } else if b == 0x8000_0000_0000_0000u64 {
        b
    } else if b > 0x8000_0000_0000_0000u64 {
        0
    } else if b > 0x3FF0_0000_0000_0000u64 {
        0x3FF0_0000_0000_0000u64
    } else {
        b
    }
}

/// `b` encodes NaN in IEEE-754 binary64.
pub open spec fn is_nan_bits(b: u64) -> bool {
    ((b >> 52u64) & 0x7FFu64) == 0x7FFu64 && (b & 0xF_FFFF_FFFF_FFFFu64) != 0
}

/// `b` encodes a number between 0.0 and 1.0 inclusive (zero of either
/// sign): the non-negative encodings up to that of 1.0, or that of -0.0.
pub open spec fn unit_interval_bits(b: u64) -> bool {
    b <= 0x3FF0_0000_0000_0000u64 || b == 0x8000_0000_0000_0000u64
}

/// A proposal's confidence lies in [0, 1]: clamping any number that is not
/// NaN gives a number between 0.0 and 1.0, and leaves one already in that
/// range as it is (`prop.confidence_bits == clamp_unit_bits(..)` in
/// [`to_proposal`] and [`audit_to_proposal`]).
pub proof fn law_confidence_clamped(b: u64)
    requires
        !is_nan_bits(b),
    ensures
        unit_interval_bits(clamp_unit_bits(b)),
        unit_interval_bits(b) ==> clamp_unit_bits(b) == b,
{
}

/// Exec counterpart of [`clamp_unit_bits`].
pub fn clamp_unit(b: u64) -> (r: u64)
    ensures
        r == clamp_unit_bits(b),
{
    let exp = (b >> 52u64) & 0x7FFu64;
    let frac = b & 0xF_FFFF_FFFF_FFFFu64;
    if exp == 0x7FFu64 && frac != 0 {
        b
    } else if b == 0x8000_0000_0000_0000u64 {
        b
    } else if b > 0x8000_0000_0000_0000u64 {
        0
    } else if b > 0x3FF0_0000_0000_0000u64 {
        0x3FF0_0000_0000_0000u64
    } else {
        b
    }
}

/// Normalize and canonicalize a model-proposed path (see [`normalize_path`]).
pub fn normalize_response(resp: &ClassifyResponse, library: &Library) -> (r: Result<(Vec<String>, bool)>)
    ensures
        normalized_as(r, normalize_path_spec(views(resp.path@), library.collections@)),
{
    normalize_path(resp.path.as_slice(), library)
}

/// Turn a classify answer into a proposal: the path normalized against the
/// tree (errors as in [`normalize_path`]), confidence clamped to 0–1,
/// rationale trimmed and capped, tags cleaned.
pub fn to_proposal(item: &Item, resp: ClassifyResponse, library: &Library) -> (r: Result<ClassificationProposal>)
    ensures
        match normalize_path_spec(views(resp.path@), library.collections@) {
            Err(m) => r matches Err(Error::InvalidResponse(msg)) && msg@ == m,
            Ok((p, n)) => r matches Ok(prop) && {
                &&& prop.item_key == item.key
                &&& views(prop.proposed_path@) == p
                &&& prop.is_new_collection == n
                &&& prop.confidence_bits == clamp_unit_bits(resp.confidence_bits)
                &&& prop.rationale@ == trim_rationale_spec(resp.rationale@)
                &&& views(prop.suggested_tags@) == normalize_tags_spec(views(resp.tags@), *item, *library)
            },
        },
{
    let (path, is_new) = match normalize_response(&resp, library) {
        Ok(x) => x,
        Err(e) => {
            return Err(e);
        },
    };
    Ok(ClassificationProposal {
        item_key: item.key.clone(),
        proposed_path: path,
        is_new_collection: is_new,
        confidence_bits: clamp_unit(resp.confidence_bits),
        rationale: trim_rationale(resp.rationale.as_str()),
        suggested_tags: normalize_tags(resp.tags.as_slice(), item, library),
    })
}

// --- audit (re-checking already-classified papers) ---------------------

/// One real membership: (collection key, nested path).
pub type Membership = (Seq<char>, Seq<Seq<char>>);

/// The memberships among `keys` whose path resolves and does not start at
/// the Unclassified root, in key order.
pub open spec fn memberships_spec(keys: Seq<Seq<char>>, cols: Seq<Collection>) -> Seq<Membership>
    decreases keys.len(),
{
    if keys.len() == 0 {
        seq![]
    } else {
        let r = memberships_spec(keys.drop_last(), cols);
        match collection_path_spec(cols, keys.last(), MAX_PATH_LOOKUPS as nat) {
            Some(p) => if rooted_at_unclassified(p) {
                r
            } else {
                r.push((keys.last(), p))
            },
            None => r,
        }
    }
}

/// View of an exec membership list.
pub open spec fn memberships_view(v: Seq<(String, Vec<String>)>) -> Seq<Membership> {
    Seq::new(v.len(), |i: int| (v[i].0@, views(v[i].1@)))
}

/// The item's collection memberships that count as "real" filing: every
/// membership whose path does not start at the Unclassified root.
/// Returns (collection key, nested path) pairs.
pub fn audit_memberships(item: &Item, library: &Library) -> (r: Vec<(String, Vec<String>)>)
    ensures
        memberships_view(r@) == memberships_spec(views(item.collection_keys@), library.collections@),
{
    let ghost keys = views(item.collection_keys@);
    let mut r: Vec<(String, Vec<String>)> = Vec::new();
    let mut i: usize = 0;
    while i < item.collection_keys.len()
        invariant
            i <= item.collection_keys.len(),
            keys == views(item.collection_keys@),
            memberships_view(r@) == memberships_spec(keys.take(i as int), library.collections@),
        decreases item.collection_keys.len() - i,
    {
        let key = &item.collection_keys[i];
        proof {
            assert(keys.take(i + 1).drop_last() =~= keys.take(i as int));
            assert(keys.take(i + 1).last() == key@);
        }
        match library.collection_path(key.as_str()) {
            Some(path) => {
                if !is_rooted_at_unclassified(&path) {
                    let ghost before = r@;
                    r.push((key.clone(), path));
                    proof {
                        assert(memberships_view(r@) =~= memberships_view(before).push((key@, views(path@))));
                    }
                }
            },
            None => {},
        }
        i += 1;
    }
    assert(keys.take(item.collection_keys.len() as int) =~= keys);
    r
}

/// The nested paths of a membership list.
pub open spec fn membership_paths(m: Seq<Membership>) -> Seq<Seq<Seq<char>>> {
    Seq::new(m.len(), |i: int| m[i].1)
}

/// The keys of a membership list.
pub open spec fn membership_keys(m: Seq<Membership>) -> Seq<Seq<char>> {
    Seq::new(m.len(), |i: int| m[i].0)
}

/// `req` is the audit request of `item`: its metadata, its current paths
/// and the library's filed paths.
pub open spec fn audit_request_of(req: AuditRequest, item: Item, library: Library) -> bool {
    let ms = memberships_spec(views(item.collection_keys@), library.collections@);
    &&& req.title == item.title
    &&& req.creators@ == item.creators@
    &&& req.year == item.year
    &&& req.publication == item.publication
    &&& req.abstract_text == item.abstract_text
    &&& req.tags@ == item.tags@
    &&& path_views(req.current_paths@) == membership_paths(ms)
    &&& path_views(req.existing_paths@) == filed_paths(
        all_paths_spec(library.collections@, library.collections@.len() as int),
    )
}

/// Build the audit request for one item. `None` when the item has no real
/// filing to audit (it belongs in the Unclassified flow instead).
pub fn build_audit_request(item: &Item, library: &Library) -> (r: Option<AuditRequest>)
    ensures
        memberships_spec(views(item.collection_keys@), library.collections@).len() == 0 ==> r is None,
        memberships_spec(views(item.collection_keys@), library.collections@).len() > 0 ==> (r matches Some(
            req,
        ) && audit_request_of(req, *item, *library)),
{
    let memberships = audit_memberships(item, library);
    if memberships.len() == 0 {
        return None;
    }
    let base = build_request(item, library);
    let mut current_paths: Vec<Vec<String>> = Vec::new();
    let mut i: usize = 0;
    while i < memberships.len()
        invariant
            i <= memberships.len(),
            path_views(current_paths@) == membership_paths(memberships_view(memberships@)).take(i as int),
        decreases memberships.len() - i,
    {
        let ghost before = current_paths@;
        let cp = clone_strings(&memberships[i].1);
        current_paths.push(cp);
        proof {
            assert(path_views(current_paths@) =~= path_views(before).push(views(cp@)));
            assert(path_views(current_paths@) =~= membership_paths(memberships_view(memberships@)).take(i + 1));
        }
        i += 1;
    }
    assert(membership_paths(memberships_view(memberships@)).take(memberships.len() as int)
        =~= membership_paths(memberships_view(memberships@)));
    Some(AuditRequest {
        title: base.title,
        creators: base.creators,
        year: base.year,
        publication: base.publication,
        abstract_text: base.abstract_text,
        tags: base.tags,
        current_paths,
        existing_paths: base.existing_paths,
    })
}

/// Same path, segment by segment, trimmed and ASCII case-insensitive.
pub open spec fn same_path_ci(a: Seq<Seq<char>>, b: Seq<Seq<char>>) -> bool {
    a.len() == b.len() && forall|j: int| 0 <= j < a.len() ==> eq_ci(#[trigger] a[j], b[j])
}

/// Whether `p` is (case-insensitively) one of the membership paths.
pub open spec fn already_filed(ms: Seq<Membership>, p: Seq<Seq<char>>) -> bool {
    exists|i: int| 0 <= i < ms.len() && same_path_ci(#[trigger] ms[i].1, p)
}

fn same_path_ci_exec(a: &Vec<String>, b: &Vec<String>) -> (r: bool)
    ensures
        r == same_path_ci(views(a@), views(b@)),
{
    if a.len() != b.len() {
        return false;
    }
    let mut j: usize = 0;
    while j < a.len()
        invariant
            a.len() == b.len(),
            j <= a.len(),
            forall|k: int| 0 <= k < j ==> eq_ci(#[trigger] views(a@)[k], views(b@)[k]),
        decreases a.len() - j,
    {
        if !eq_ci_str(a[j].as_str(), b[j].as_str()) {
            assert(!eq_ci(views(a@)[j as int], views(b@)[j as int]));
            return false;
        }
        j += 1;
    }
    true
}

/// Turn an audit answer into a move proposal.
///
/// `Ok(None)` means "leave the paper where it is": either the model judged
/// the current filing fine, or its proposal normalized to a path the paper
/// is already in.
#[verifier::loop_isolation(false)]
pub fn audit_to_proposal(item: &Item, resp: AuditResponse, library: &Library) -> (r: Result<Option<AuditProposal>>)
    ensures
        !resp.misplaced ==> r matches Ok(None),
        resp.misplaced ==> match normalize_path_spec(views(resp.path@), library.collections@) {
            Err(m) => r matches Err(Error::InvalidResponse(msg)) && msg@ == m,
            Ok((p, n)) => {
                let ms = memberships_spec(views(item.collection_keys@), library.collections@);
                if already_filed(ms, p) {
                    r matches Ok(None)
                } else {
                    r matches Ok(Some(prop)) && {
                        &&& prop.item_key == item.key
                        &&& path_views(prop.current_paths@) == membership_paths(ms)
                        &&& views(prop.current_keys@) == membership_keys(ms)
                        &&& views(prop.proposed_path@) == p
                        &&& prop.is_new_collection == n
                        &&& prop.confidence_bits == clamp_unit_bits(resp.confidence_bits)
                        &&& prop.rationale@ == trim_rationale_spec(resp.rationale@)
                    }
                }
            },
        },
{
    if !resp.misplaced {
        return Ok(None);
    }
    let (path, is_new) = match normalize_path(resp.path.as_slice(), library) {
        Ok(x) => x,
        Err(e) => {
            return Err(e);
        },
    };
    assert(normalize_path_spec(views(resp.path@), library.collections@) == Ok::<(Seq<Seq<char>>, bool), Seq<char>>((views(path@), is_new)));
    let memberships = audit_memberships(item, library);
    let ghost ms = memberships_view(memberships@);
    let mut i: usize = 0;
    while i < memberships.len()
        invariant
            i <= memberships.len(),
            ms == memberships_view(memberships@),
            ms == memberships_spec(views(item.collection_keys@), library.collections@),
            forall|k: int| 0 <= k < i ==> !same_path_ci(#[trigger] ms[k].1, views(path@)),
        decreases memberships.len() - i,
    {
        if same_path_ci_exec(&memberships[i].1, &path) {
            assert(same_path_ci(ms[i as int].1, views(path@)));
            assert(already_filed(ms, views(path@)));
            return Ok(None);
        }
        i += 1;
    }
    let mut current_paths: Vec<Vec<String>> = Vec::new();
    let mut current_keys: Vec<String> = Vec::new();
    let mut j: usize = 0;
    while j < memberships.len()
        invariant
            j <= memberships.len(),
            ms == memberships_view(memberships@),
            path_views(current_paths@) == membership_paths(ms).take(j as int),
            views(current_keys@) == membership_keys(ms).take(j as int),
        decreases memberships.len() - j,
    {
        let ghost bp = current_paths@;
        let ghost bk = current_keys@;
        let cp = clone_strings(&memberships[j].1);
        let ck = memberships[j].0.clone();
        current_paths.push(cp);
        current_keys.push(ck);
        proof {
            assert(path_views(current_paths@) =~= path_views(bp).push(views(cp@)));
            assert(views(current_keys@) =~= views(bk).push(ck@));
            assert(path_views(current_paths@) =~= membership_paths(ms).take(j + 1));
            assert(views(current_keys@) =~= membership_keys(ms).take(j + 1));
        }
        j += 1;
    }
    assert(membership_paths(ms).take(memberships.len() as int) =~= membership_paths(ms));
    assert(membership_keys(ms).take(memberships.len() as int) =~= membership_keys(ms));
    Ok(
        Some(
            AuditProposal {
                item_key: item.key.clone(),
                current_paths,
                current_keys,
                proposed_path: path,
                is_new_collection: is_new,
                confidence_bits: clamp_unit(resp.confidence_bits),
                rationale: trim_rationale(resp.rationale.as_str()),
            },
        ),
    )
}

// --- laws ----------------------------------------------------------------

/// An existing chain of collections below `parent` whose exact names are `p`.
pub open spec fn chain_exists(cols: Seq<Collection>, p: Seq<Seq<char>>, parent: Option<Seq<char>>) -> bool
    decreases p.len(),
{
    if p.len() == 0 {
        true
    } else {
        exists|j: int|
            0 <= j < cols.len() && opt_view(#[trigger] cols[j].parent_key) == parent && cols[j].name@
                == p[0] && chain_exists(cols, p.drop_first(), Some(cols[j].key@))
    }
}

proof fn lemma_find_child_from_found(cols: Seq<Collection>, parent: Option<Seq<char>>, seg: Seq<char>, i: int)
    ensures
        find_child_from(cols, parent, seg, i) matches Some(j) ==> 0 <= j < cols.len() && opt_view(
            cols[j].parent_key,
        ) == parent && eq_ci(cols[j].name@, seg),
    decreases cols.len() - i,
{
    if 0 <= i < cols.len() {
        lemma_find_child_from_found(cols, parent, seg, i + 1);
    }
}

proof fn lemma_find_child_found(cols: Seq<Collection>, parent: Option<Seq<char>>, seg: Seq<char>)
    ensures
        find_child(cols, parent, seg) matches Some(j) ==> 0 <= j < cols.len() && opt_view(
            cols[j].parent_key,
        ) == parent && eq_ci(cols[j].name@, seg),
{
    lemma_find_child_from_found(cols, parent, seg, 0);
}

proof fn lemma_walk_len(cols: Seq<Collection>, segs: Seq<Seq<char>>, i: int, parent: Option<Seq<char>>)
    requires
        0 <= i <= segs.len(),
    ensures
        walk_from(cols, segs, i, parent).0.len() == segs.len() - i,
        !walk_from(cols, segs, i, parent).1 ==> chain_exists(cols, walk_from(cols, segs, i, parent).0, parent),
        i < segs.len() ==> match find_child(cols, parent, segs[i]) {
            Some(j) => walk_from(cols, segs, i, parent).0[0] == cols[j].name@,
            None => walk_from(cols, segs, i, parent).0[0] == segs[i],
        },
    decreases segs.len() - i,
{
    if i < segs.len() {
        lemma_find_child_found(cols, parent, segs[i]);
        match find_child(cols, parent, segs[i]) {
            Some(j) => {
                lemma_walk_len(cols, segs, i + 1, Some(cols[j].key@));
                let rest = walk_from(cols, segs, i + 1, Some(cols[j].key@));
                let w = seq![cols[j].name@] + rest.0;
                assert(w.drop_first() =~= rest.0);
                if !rest.1 {
                    assert(chain_exists(cols, w, parent));
                }
            },
            None => {},
        }
    } else {
        assert(walk_from(cols, segs, i, parent).0 =~= Seq::<Seq<char>>::empty());
    }
}

proof fn lemma_eq_ascii_ci_trans(a: Seq<char>, b: Seq<char>, c: Seq<char>)
    requires
        crate::text::eq_ascii_ci(a, b),
        crate::text::eq_ascii_ci(b, c),
    ensures
        crate::text::eq_ascii_ci(a, c),
{
    assert forall|i: int| 0 <= i < a.len() implies crate::text::ascii_lower_code(#[trigger] a[i])
        == crate::text::ascii_lower_code(c[i]) by {
        assert(crate::text::ascii_lower_code(a[i]) == crate::text::ascii_lower_code(b[i]));
        assert(crate::text::ascii_lower_code(b[i]) == crate::text::ascii_lower_code(c[i]));
    }
}

/// A normalized path has one to three segments, never starts at the
/// Unclassified collection, and, when it is not marked new, names an existing
/// chain of collections exactly (so a proposal can never create `llm` next to
/// an existing `LLM`).
pub proof fn law_normalized_path_is_canonical(raw: Seq<Seq<char>>, cols: Seq<Collection>)
    requires
        normalize_path_spec(raw, cols) is Ok,
    ensures
        ({
            let (p, is_new) = normalize_path_spec(raw, cols)->Ok_0;
            &&& 1 <= p.len() <= MAX_DEPTH
            &&& !eq_ci(p[0], UNCLASSIFIED_COLLECTION@)
            &&& !is_new ==> chain_exists(cols, p, None)
        }),
{
    let cleaned = clean_segments(raw);
    let path = cleaned.take(
        if cleaned.len() > MAX_DEPTH {
            MAX_DEPTH as int
        } else {
            cleaned.len() as int
        },
    );
    lemma_walk_len(cols, path, 0, None);
    lemma_find_child_found(cols, None, path[0]);
    match find_child(cols, None, path[0]) {
        Some(j) => {
            let name = cols[j].name@;
            if eq_ci(name, UNCLASSIFIED_COLLECTION@) {
                // eq_ci(path[0], name) and eq_ci(name, Unclassified) would make path[0] Unclassified.
                let tp = trim(path[0]);
                let tn = trim(name);
                let tu = trim(UNCLASSIFIED_COLLECTION@);
                assert(crate::text::eq_ascii_ci(tn, tp)) by {
                    assert forall|i: int| 0 <= i < tn.len() implies crate::text::ascii_lower_code(
                        #[trigger] tn[i],
                    ) == crate::text::ascii_lower_code(tp[i]) by {
                        assert(crate::text::ascii_lower_code(tp[i]) == crate::text::ascii_lower_code(tn[i]));
                    }
                }
                lemma_eq_ascii_ci_trans(tp, tn, tu);
            }
        },
        None => {},
    }
}

proof fn lemma_clean_trimmed(raw: Seq<Seq<char>>)
    ensures
        forall|m: int| 0 <= m < clean_segments(raw).len() ==> trim(#[trigger] clean_segments(raw)[m])
            == clean_segments(raw)[m] && clean_segments(raw)[m].len() > 0,
    decreases raw.len(),
{
    if raw.len() > 0 {
        lemma_clean_trimmed(raw.drop_last());
        crate::text::lemma_trim_idempotent(raw.last());
        let r = clean_segments(raw.drop_last());
        let c = clean_segments(raw);
        assert forall|m: int| 0 <= m < c.len() implies trim(#[trigger] c[m]) == c[m] && c[m].len() > 0 by {
            if m < r.len() {
                assert(c[m] == r[m]);
            }
        }
    }
}

proof fn lemma_clean_of_trimmable(p: Seq<Seq<char>>)
    requires
        forall|m: int| 0 <= m < p.len() ==> trim(#[trigger] p[m]).len() > 0,
    ensures
        clean_segments(p) == Seq::new(p.len(), |m: int| trim(p[m])),
    decreases p.len(),
{
    if p.len() > 0 {
        let d = p.drop_last();
        assert forall|m: int| 0 <= m < d.len() implies trim(#[trigger] d[m]).len() > 0 by {
            assert(d[m] == p[m]);
        }
        lemma_clean_of_trimmable(d);
        assert(trim(p.last()).len() > 0);
        assert(clean_segments(p) =~= Seq::new(p.len(), |m: int| trim(p[m])));
    } else {
        assert(clean_segments(p) =~= Seq::new(p.len(), |m: int| trim(p[m])));
    }
}

proof fn lemma_find_child_same(cols: Seq<Collection>, parent: Option<Seq<char>>, a: Seq<char>, b: Seq<char>, i: int)
    requires
        crate::text::eq_ascii_ci(trim(a), trim(b)),
    ensures
        find_child_from(cols, parent, a, i) == find_child_from(cols, parent, b, i),
    decreases cols.len() - i,
{
    if 0 <= i < cols.len() {
        let n = trim(cols[i].name@);
        crate::text::lemma_eq_ascii_ci_equiv(n, trim(a), trim(b));
        crate::text::lemma_eq_ascii_ci_equiv(n, trim(b), trim(a));
        crate::text::lemma_eq_ascii_ci_equiv(trim(a), trim(b), n);
        lemma_find_child_same(cols, parent, a, b, i + 1);
    }
}

proof fn lemma_walk_shape(cols: Seq<Collection>, segs: Seq<Seq<char>>, i: int, parent: Option<Seq<char>>)
    requires
        0 <= i <= segs.len(),
    ensures
        walk_from(cols, segs, i, parent).0.len() == segs.len() - i,
        forall|m: int| 0 <= m < segs.len() - i ==> eq_ci(#[trigger] walk_from(cols, segs, i, parent).0[m], segs[i + m]),
    decreases segs.len() - i,
{
    lemma_walk_len(cols, segs, i, parent);
    if i < segs.len() {
        let w = walk_from(cols, segs, i, parent).0;
        lemma_find_child_found(cols, parent, segs[i]);
        match find_child(cols, parent, segs[i]) {
            Some(j) => {
                lemma_walk_shape(cols, segs, i + 1, Some(cols[j].key@));
                let rest = walk_from(cols, segs, i + 1, Some(cols[j].key@)).0;
                assert forall|m: int| 0 <= m < segs.len() - i implies eq_ci(#[trigger] w[m], segs[i + m]) by {
                    if m > 0 {
                        assert(w[m] == rest[m - 1]);
                    }
                }
            },
            None => {
                assert forall|m: int| 0 <= m < segs.len() - i implies eq_ci(#[trigger] w[m], segs[i + m]) by {
                    assert(w[m] == segs[i + m]);
                    crate::text::lemma_eq_ascii_ci_equiv(trim(w[m]), trim(w[m]), trim(w[m]));
                }
            },
        }
    }
}

proof fn lemma_rewalk(cols: Seq<Collection>, segs: Seq<Seq<char>>, q: Seq<Seq<char>>, i: int, parent: Option<Seq<char>>)
    requires
        0 <= i <= segs.len(),
        q.len() == segs.len(),
        forall|m: int| i <= m < segs.len() ==> trim(#[trigger] segs[m]) == segs[m],
        forall|m: int| i <= m < segs.len() ==> #[trigger] q[m] == trim(walk_from(cols, segs, i, parent).0[m - i]),
    ensures
        walk_from(cols, q, i, parent) == walk_from(cols, segs, i, parent),
    decreases segs.len() - i,
{
    if i < segs.len() {
        lemma_walk_shape(cols, segs, i, parent);
        let w = walk_from(cols, segs, i, parent).0;
        lemma_find_child_found(cols, parent, segs[i]);
        match find_child(cols, parent, segs[i]) {
            Some(j) => {
                let name = cols[j].name@;
                assert(q[i] == trim(w[0]));
                crate::text::lemma_trim_idempotent(name);
                lemma_find_child_same(cols, parent, q[i], segs[i], 0);
                let rest = walk_from(cols, segs, i + 1, Some(cols[j].key@)).0;
                assert forall|m: int| i + 1 <= m < segs.len() implies #[trigger] q[m] == trim(rest[m - (i + 1)]) by {
                    assert(q[m] == trim(w[m - i]));
                    assert(w[m - i] == rest[m - i - 1]);
                }
                lemma_rewalk(cols, segs, q, i + 1, Some(cols[j].key@));
            },
            None => {
                assert(q[i] == segs[i]);
                assert(q.subrange(i, q.len() as int) =~= segs.subrange(i, segs.len() as int)) by {
                    assert forall|m: int| 0 <= m < segs.len() - i implies #[trigger] q.subrange(i, q.len() as int)[m]
                        == segs.subrange(i, segs.len() as int)[m] by {
                        assert(q[i + m] == trim(w[m]));
                        assert(w[m] == segs[i + m]);
                    }
                }
            },
        }
    }
}

/// Normalizing is idempotent: a path that came out of normalization
/// normalizes to itself, with the same "new collection" flag.
pub proof fn law_normalize_path_idempotent(raw: Seq<Seq<char>>, cols: Seq<Collection>)
    ensures
        normalize_path_spec(raw, cols) matches Ok((p, is_new)) ==> normalize_path_spec(p, cols) == Ok::<
            (Seq<Seq<char>>, bool),
            Seq<char>,
        >((p, is_new)),
{
    let cleaned = clean_segments(raw);
    if cleaned.len() > 0 && !eq_ci(
        cleaned.take(if cleaned.len() > MAX_DEPTH { MAX_DEPTH as int } else { cleaned.len() as int })[0],
        UNCLASSIFIED_COLLECTION@,
    ) {
        let path = cleaned.take(
            if cleaned.len() > MAX_DEPTH {
                MAX_DEPTH as int
            } else {
                cleaned.len() as int
            },
        );
        lemma_clean_trimmed(raw);
        assert forall|m: int| 0 <= m < path.len() implies trim(#[trigger] path[m]) == path[m]
            && path[m].len() > 0 by {
            assert(path[m] == cleaned[m]);
        }
        lemma_walk_shape(cols, path, 0, None);
        let p = walk_from(cols, path, 0, None).0;
        assert forall|m: int| 0 <= m < p.len() implies trim(#[trigger] p[m]).len() > 0 by {
            assert(eq_ci(p[m], path[0 + m]));
        }
        lemma_clean_of_trimmable(p);
        let q = Seq::new(p.len(), |m: int| trim(p[m]));
        assert(q.take(q.len() as int) =~= q);
        crate::text::lemma_trim_idempotent(p[0]);
        assert(eq_ci(p[0], path[0int + 0int]));
        let u = trim(UNCLASSIFIED_COLLECTION@);
        crate::text::lemma_eq_ascii_ci_equiv(trim(p[0]), trim(path[0]), u);
        crate::text::lemma_eq_ascii_ci_equiv(trim(path[0]), trim(p[0]), u);
        assert(!eq_ci(q[0], UNCLASSIFIED_COLLECTION@));
        lemma_rewalk(cols, path, q, 0, None);
    }
}

/// A proposal's rationale never exceeds the cap by more than the ellipsis:
/// at most 503 UTF-8 bytes.
pub proof fn law_rationale_bounded(raw: Seq<char>)
    ensures
        utf8_len(trim_rationale_spec(raw)) <= MAX_RATIONALE + 3,
{
    let t = trim(raw);
    if utf8_len(t) > MAX_RATIONALE {
        let n = fit_prefix(t, MAX_RATIONALE as nat);
        crate::text::lemma_fit_prefix_le(t, MAX_RATIONALE as nat);
        crate::text::lemma_fit_prefix_bytes(t, MAX_RATIONALE as nat);
        crate::text::lemma_utf8_len_concat(t.take(n as int), seq!['\u{2026}']);
        assert(t.take(n as int).push('\u{2026}') =~= t.take(n as int) + seq!['\u{2026}']);
        crate::text::lemma_utf8_len_single('\u{2026}');
    }
}

proof fn lemma_first_key_match(v: Seq<(Seq<char>, Seq<char>)>, l: Seq<char>)
    requires
        forall|i: int| 0 <= i < v.len() ==> str_lower((#[trigger] v[i]).0) == v[i].1,
    ensures
        first_key_match(v, l) matches Some(x) ==> str_lower(x) == l,
    decreases v.len(),
{
    if v.len() > 0 {
        assert forall|i: int| 0 <= i < v.drop_first().len() implies str_lower((#[trigger] v.drop_first()[i]).0)
            == v.drop_first()[i].1 by {
            assert(v.drop_first()[i] == v[i + 1]);
        }
        lemma_first_key_match(v.drop_first(), l);
    }
}

/// Invariant of the suggestion fold.
pub open spec fn tag_state_ok(st: TagState, item_lowers: Seq<Seq<char>>) -> bool {
    &&& st.0.len() == st.1.len()
    &&& st.0.len() <= MAX_SUGGESTED_TAGS
    &&& forall|i: int| 0 <= i < st.0.len() ==> str_lower(#[trigger] st.0[i]) == st.1[i]
    &&& forall|i: int, j: int| 0 <= i < j < st.1.len() ==> st.1[i] != st.1[j]
    &&& forall|i: int| 0 <= i < st.1.len() ==> !item_lowers.contains(#[trigger] st.1[i])
}

proof fn lemma_suggest_fold_ok(sugs: Seq<(Seq<char>, Seq<char>)>, n: int, item_lowers: Seq<Seq<char>>, vocab: Seq<(Seq<char>, Seq<char>)>)
    requires
        n <= sugs.len(),
        forall|i: int| 0 <= i < sugs.len() ==> str_lower((#[trigger] sugs[i]).0) == sugs[i].1,
        forall|i: int| 0 <= i < vocab.len() ==> str_lower((#[trigger] vocab[i]).0) == vocab[i].1,
    ensures
        tag_state_ok(suggest_fold(sugs, n, item_lowers, vocab), item_lowers),
    decreases n,
{
    if n > 0 {
        lemma_suggest_fold_ok(sugs, n - 1, item_lowers, vocab);
        let st = suggest_fold(sugs, n - 1, item_lowers, vocab);
        let lower = sugs[n - 1].1;
        assert(str_lower(sugs[n - 1].0) == lower);
        lemma_first_key_match(vocab, lower);
        let next = suggest_fold(sugs, n, item_lowers, vocab);
        if next != st {
            assert(!st.1.contains(lower));
            assert forall|i: int, j: int| 0 <= i < j < next.1.len() implies next.1[i] != next.1[j] by {
                if j == st.1.len() {
                    assert(st.1[i] == next.1[i]);
                    if st.1[i] == lower {
                        assert(st.1.contains(lower));
                    }
                }
            }
        }
    }
}

/// Suggested tags are at most four, pairwise distinct case-insensitively,
/// and never a tag the item already has.
pub proof fn law_suggested_tags_distinct(raw: Seq<Seq<char>>, item: Item, library: Library)
    ensures
        ({
            let out = normalize_tags_spec(raw, item, library);
            let lowers = tag_lowers(views(item.tags@));
            &&& out.len() <= MAX_SUGGESTED_TAGS
            &&& forall|i: int, j: int|
                0 <= i < j < out.len() ==> str_lower(#[trigger] out[i]) != str_lower(#[trigger] out[j])
            &&& forall|i: int| 0 <= i < out.len() ==> !lowers.contains(str_lower(#[trigger] out[i]))
        }),
{
    let lowers = tag_lowers(views(item.tags@));
    let vocab = keyed_vocab(popular_tags_spec(library.items@, usize::MAX as nat));
    lemma_suggest_fold_ok(keyed_suggestions(raw), raw.len() as int, lowers, vocab);
}

/// The suggestions, in order, that pass the filters of [`normalize_tags`]
/// when no cap on their number applies: trimmed tag not blank and at most
/// `MAX_TAG_LEN` bytes, its lower-cased form neither a tag the item has nor
/// that of an earlier passing suggestion.
pub open spec fn eligible_tags(sugs: Seq<(Seq<char>, Seq<char>)>, n: int, item_lowers: Seq<Seq<char>>) -> Seq<(Seq<char>, Seq<char>)>
    decreases n,
{
    if n <= 0 {
        seq![]
    } else {
        let e = eligible_tags(sugs, n - 1, item_lowers);
        let (tag, lower) = sugs[n - 1];
        if tag.len() == 0 || utf8_len(tag) > MAX_TAG_LEN || item_lowers.contains(lower) || lowers_of(e).contains(lower) {
            e
        } else {
            e.push((tag, lower))
        }
    }
}

/// The lower-cased forms of (tag, lower-cased form) pairs.
pub open spec fn lowers_of(e: Seq<(Seq<char>, Seq<char>)>) -> Seq<Seq<char>> {
    Seq::new(e.len(), |i: int| e[i].1)
}

/// The spelling a suggestion takes: the library's where a vocabulary entry
/// has the same lower-cased form, else the trimmed suggestion.
pub open spec fn spelled(vocab: Seq<(Seq<char>, Seq<char>)>, sug: (Seq<char>, Seq<char>)) -> Seq<char> {
    match first_key_match(vocab, sug.1) {
        Some(v) => v,
        None => sug.0,
    }
}

proof fn lemma_capped_eligible(sugs: Seq<(Seq<char>, Seq<char>)>, n: int, item_lowers: Seq<Seq<char>>, vocab: Seq<(Seq<char>, Seq<char>)>)
    requires
        0 <= n <= sugs.len(),
    ensures
        ({
            let st = suggest_fold(sugs, n, item_lowers, vocab);
            let e = eligible_tags(sugs, n, item_lowers);
            let k = if e.len() < MAX_SUGGESTED_TAGS { e.len() as int } else { MAX_SUGGESTED_TAGS as int };
            &&& st.0 == Seq::new(k as nat, |i: int| spelled(vocab, e[i]))
            &&& st.1 == Seq::new(k as nat, |i: int| e[i].1)
        }),
    decreases n,
{
    if n > 0 {
        lemma_capped_eligible(sugs, n - 1, item_lowers, vocab);
        let st = suggest_fold(sugs, n - 1, item_lowers, vocab);
        let e = eligible_tags(sugs, n - 1, item_lowers);
        let e2 = eligible_tags(sugs, n, item_lowers);
        let st2 = suggest_fold(sugs, n, item_lowers, vocab);
        let k2 = if e2.len() < MAX_SUGGESTED_TAGS { e2.len() as int } else { MAX_SUGGESTED_TAGS as int };
        if st.0.len() >= MAX_SUGGESTED_TAGS {
            assert(st2 == st);
            assert(e2.len() >= e.len());
            assert forall|i: int| 0 <= i < k2 implies e2[i] == e[i] by {}
            assert(st2.0 =~= Seq::new(k2 as nat, |i: int| spelled(vocab, e2[i])));
            assert(st2.1 =~= Seq::new(k2 as nat, |i: int| e2[i].1));
        } else {
            assert(st.1 =~= lowers_of(e));
            assert(st2.0 =~= Seq::new(k2 as nat, |i: int| spelled(vocab, e2[i])));
            assert(st2.1 =~= Seq::new(k2 as nat, |i: int| e2[i].1));
        }
    } else {
        assert(suggest_fold(sugs, n, item_lowers, vocab).0 =~= Seq::new(0, |i: int| spelled(vocab, eligible_tags(sugs, n, item_lowers)[i])));
        assert(suggest_fold(sugs, n, item_lowers, vocab).1 =~= Seq::new(0, |i: int| eligible_tags(sugs, n, item_lowers)[i].1));
    }
}

proof fn lemma_first_key_match_first(v: Seq<(Seq<char>, Seq<char>)>, l: Seq<char>)
    ensures
        match first_key_match(v, l) {
            Some(x) => exists|k: int| 0 <= k < v.len() && #[trigger] v[k] == (x, l) && forall|j: int| 0 <= j < k ==> (#[trigger] v[j]).1 != l,
            None => forall|k: int| 0 <= k < v.len() ==> (#[trigger] v[k]).1 != l,
        },
    decreases v.len(),
{
    if v.len() > 0 {
        let d = v.drop_first();
        lemma_first_key_match_first(d, l);
        if v[0].1 == l {
            assert(v[0] == (v[0].0, l));
        } else {
            match first_key_match(d, l) {
                Some(x) => {
                    let k = choose|k: int| 0 <= k < d.len() && #[trigger] d[k] == (x, l) && forall|j: int| 0 <= j < k ==> (#[trigger] d[j]).1 != l;
                    assert(v[k + 1] == (x, l));
                    assert forall|j: int| 0 <= j < k + 1 implies (#[trigger] v[j]).1 != l by {
                        if j > 0 {
                            assert(v[j] == d[j - 1]);
                        }
                    }
                },
                None => {
                    assert forall|k: int| 0 <= k < v.len() implies (#[trigger] v[k]).1 != l by {
                        if k > 0 {
                            assert(v[k] == d[k - 1]);
                        }
                    }
                },
            }
        }
    }
}

/// Suggested tags in the terms of the feature: the suggestions that pass
/// the filters (see [`eligible_tags`]) are kept in order, at most four of
/// them, each in the library's existing spelling (the first tag of the
/// library vocabulary with the same lower-cased form) where there is one,
/// otherwise as the trimmed suggestion.
pub proof fn law_suggested_tags_prefer_library_spelling(raw: Seq<Seq<char>>, item: Item, library: Library)
    ensures
        ({
            let vocab = popular_tags_spec(library.items@, usize::MAX as nat);
            let q = eligible_tags(keyed_suggestions(raw), raw.len() as int, tag_lowers(views(item.tags@)));
            let out = normalize_tags_spec(raw, item, library);
            &&& out.len() == if q.len() < MAX_SUGGESTED_TAGS { q.len() } else { MAX_SUGGESTED_TAGS as nat }
            &&& forall|i: int| 0 <= i < out.len() ==> match first_key_match(keyed_vocab(vocab), (#[trigger] q[i]).1) {
                Some(v) => out[i] == v && exists|k: int| 0 <= k < vocab.len() && vocab[k] == v && str_lower(v) == q[i].1
                    && forall|j: int| 0 <= j < k ==> str_lower(#[trigger] vocab[j]) != q[i].1,
                None => out[i] == q[i].0 && forall|k: int| 0 <= k < vocab.len() ==> str_lower(#[trigger] vocab[k]) != q[i].1,
            }
        }),
{
    let vocab = popular_tags_spec(library.items@, usize::MAX as nat);
    let kv = keyed_vocab(vocab);
    let sugs = keyed_suggestions(raw);
    let il = tag_lowers(views(item.tags@));
    let q = eligible_tags(sugs, raw.len() as int, il);
    lemma_capped_eligible(sugs, raw.len() as int, il, kv);
    let out = normalize_tags_spec(raw, item, library);
    assert forall|i: int| 0 <= i < out.len() implies match first_key_match(kv, (#[trigger] q[i]).1) {
        Some(v) => out[i] == v && exists|k: int| 0 <= k < vocab.len() && vocab[k] == v && str_lower(v) == q[i].1
            && forall|j: int| 0 <= j < k ==> str_lower(#[trigger] vocab[j]) != q[i].1,
        None => out[i] == q[i].0 && forall|k: int| 0 <= k < vocab.len() ==> str_lower(#[trigger] vocab[k]) != q[i].1,
    } by {
        lemma_first_key_match_first(kv, q[i].1);
        assert(out[i] == spelled(kv, q[i]));
        match first_key_match(kv, q[i].1) {
            Some(v) => {
                let k = choose|k: int| 0 <= k < kv.len() && #[trigger] kv[k] == (v, q[i].1) && forall|j: int| 0 <= j < k ==> (#[trigger] kv[j]).1 != q[i].1;
                assert(vocab[k] == v);
                assert forall|j: int| 0 <= j < k implies str_lower(#[trigger] vocab[j]) != q[i].1 by {
                    assert(kv[j].1 == str_lower(vocab[j]));
                }
            },
            None => {
                assert forall|k: int| 0 <= k < vocab.len() implies str_lower(#[trigger] vocab[k]) != q[i].1 by {
                    assert(kv[k].1 == str_lower(vocab[k]));
                }
            },
        }
    }
}

/// No later entry ranks before an earlier one.
pub open spec fn rank_sorted(s: Seq<TagCount>) -> bool {
    forall|i: int, j: int| 0 <= i < j < s.len() ==> !ranks_before(#[trigger] s[j], #[trigger] s[i])
}

proof fn lemma_ranks_before_trans(a: TagCount, b: TagCount, c: TagCount)
    requires
        ranks_before(a, b),
        ranks_before(b, c),
    ensures
        ranks_before(a, c),
{
    if a.2 == b.2 && b.2 == c.2 {
        crate::text::lemma_seq_lt_trans(a.1, b.1, c.1);
    }
}

proof fn lemma_insert_ranked_sorted(s: Seq<TagCount>, x: TagCount)
    requires
        rank_sorted(s),
    ensures
        rank_sorted(insert_ranked(s, x)),
        insert_ranked(s, x).len() == s.len() + 1,
        forall|k: int| 0 <= k < insert_ranked(s, x).len() ==> (#[trigger] insert_ranked(s, x)[k] == x || s.contains(insert_ranked(s, x)[k])),
    decreases s.len(),
{
    if s.len() == 0 {
    } else if ranks_before(x, s[0]) {
        let r = seq![x] + s;
        assert forall|i: int, j: int| 0 <= i < j < r.len() implies !ranks_before(#[trigger] r[j], #[trigger] r[i]) by {
            if i == 0 {
                if ranks_before(r[j], x) {
                    lemma_ranks_before_trans(r[j], x, s[0]);
                    if j - 1 > 0 {
                        assert(!ranks_before(s[j - 1], s[0]));
                    } else {
                        crate::text::lemma_seq_lt_irrefl(s[0].1);
                    }
                }
            } else {
                assert(r[i] == s[i - 1] && r[j] == s[j - 1]);
            }
        }
        assert forall|k: int| 0 <= k < r.len() implies (#[trigger] r[k] == x || s.contains(r[k])) by {
            if k > 0 {
                assert(r[k] == s[k - 1]);
            }
        }
    } else {
        let t = s.drop_first();
        assert(rank_sorted(t)) by {
            assert forall|i: int, j: int| 0 <= i < j < t.len() implies !ranks_before(#[trigger] t[j], #[trigger] t[i]) by {
                assert(t[i] == s[i + 1] && t[j] == s[j + 1]);
            }
        }
        lemma_insert_ranked_sorted(t, x);
        let rest = insert_ranked(t, x);
        let r = seq![s[0]] + rest;
        assert forall|i: int, j: int| 0 <= i < j < r.len() implies !ranks_before(#[trigger] r[j], #[trigger] r[i]) by {
            if i == 0 {
                let e = rest[j - 1];
                if e == x {
                } else {
                    assert(t.contains(e));
                    let k = choose|k: int| 0 <= k < t.len() && t[k] == e;
                    assert(s[k + 1] == e);
                }
            } else {
                assert(r[i] == rest[i - 1] && r[j] == rest[j - 1]);
            }
        }
        assert forall|k: int| 0 <= k < r.len() implies (#[trigger] r[k] == x || s.contains(r[k])) by {
            if k > 0 {
                let e = rest[k - 1];
                if e != x {
                    assert(t.contains(e));
                    let m = choose|m: int| 0 <= m < t.len() && t[m] == e;
                    assert(s[m + 1] == e);
                }
            } else {
                assert(s[0] == r[0]);
            }
        }
    }
}

proof fn lemma_rank_order_sorted(t: Seq<TagCount>)
    ensures
        rank_sorted(rank_order(t)),
        rank_order(t).len() == t.len(),
    decreases t.len(),
{
    if t.len() > 0 {
        lemma_rank_order_sorted(t.drop_last());
        lemma_insert_ranked_sorted(rank_order(t.drop_last()), t.last());
    }
}

/// How many of `tags` are, trimmed, non-blank and equal to `l` once
/// lower-cased.
pub open spec fn tag_count(tags: Seq<Seq<char>>, l: Seq<char>) -> nat
    decreases tags.len(),
{
    if tags.len() == 0 {
        0
    } else {
        let t = trim(tags.last());
        tag_count(tags.drop_last(), l) + if t.len() > 0 && str_lower(t) == l { 1nat } else { 0nat }
    }
}

/// How many (spelling, key) pairs of `k` have key `l`.
spec fn key_count(k: Seq<(Seq<char>, Seq<char>)>, l: Seq<char>) -> nat
    decreases k.len(),
{
    if k.len() == 0 {
        0
    } else {
        key_count(k.drop_last(), l) + if k.last().1 == l { 1nat } else { 0nat }
    }
}

/// No two entries share a key.
spec fn distinct_keys(s: Seq<TagCount>) -> bool {
    forall|i: int, j: int| 0 <= i < j < s.len() ==> (#[trigger] s[i]).0 != (#[trigger] s[j]).0
}

proof fn lemma_keyed_tags_props(tags: Seq<Seq<char>>, l: Seq<char>)
    ensures
        key_count(keyed_tags(tags), l) == tag_count(tags, l),
        forall|m: int| 0 <= m < keyed_tags(tags).len() ==> (#[trigger] keyed_tags(tags)[m]).1 == str_lower(keyed_tags(tags)[m].0),
        forall|j: int| 0 <= j < tags.len() && trim(#[trigger] tags[j]).len() > 0 ==> key_count(keyed_tags(tags), str_lower(trim(tags[j]))) > 0,
    decreases tags.len(),
{
    if tags.len() > 0 {
        let d = tags.drop_last();
        lemma_keyed_tags_props(d, l);
        let r = keyed_tags(d);
        let t = trim(tags.last());
        if t.len() > 0 {
            assert(r.push((t, str_lower(t))).drop_last() =~= r);
        }
        assert forall|j: int| 0 <= j < tags.len() && trim(#[trigger] tags[j]).len() > 0
            implies key_count(keyed_tags(tags), str_lower(trim(tags[j]))) > 0 by {
            let lj = str_lower(trim(tags[j]));
            lemma_keyed_tags_props(d, lj);
            if j < d.len() {
                assert(tags[j] == d[j]);
                if t.len() > 0 {
                    assert(r.push((t, str_lower(t))).drop_last() =~= r);
                }
            }
        }
    }
}

proof fn lemma_key_count_pos(k: Seq<(Seq<char>, Seq<char>)>, l: Seq<char>)
    requires
        key_count(k, l) > 0,
    ensures
        exists|m: int| 0 <= m < k.len() && (#[trigger] k[m]).1 == l,
    decreases k.len(),
{
    if k.last().1 == l {
        assert(k[k.len() - 1].1 == l);
    } else {
        lemma_key_count_pos(k.drop_last(), l);
        let m = choose|m: int| 0 <= m < k.drop_last().len() && (#[trigger] k.drop_last()[m]).1 == l;
        assert(k[m] == k.drop_last()[m]);
    }
}

proof fn lemma_find_key_absent(t: Seq<TagCount>, key: Seq<char>)
    requires
        find_key(t, key) == -1,
    ensures
        forall|i: int| 0 <= i < t.len() ==> (#[trigger] t[i]).0 != key,
    decreases t.len(),
{
    if t.len() > 0 {
        lemma_find_key_absent(t.drop_last(), key);
        assert forall|i: int| 0 <= i < t.len() implies (#[trigger] t[i]).0 != key by {
            if i < t.len() - 1 {
                assert(t[i] == t.drop_last()[i]);
            }
        }
    }
}

proof fn lemma_tally_props(k: Seq<(Seq<char>, Seq<char>)>)
    requires
        forall|m: int| 0 <= m < k.len() ==> (#[trigger] k[m]).1 == str_lower(k[m].0),
    ensures
        distinct_keys(tally_keyed(k)),
        forall|i: int| 0 <= i < tally_keyed(k).len() ==> (#[trigger] tally_keyed(k)[i]).0 == str_lower(tally_keyed(k)[i].1),
        forall|i: int| 0 <= i < tally_keyed(k).len() ==> (#[trigger] tally_keyed(k)[i]).2 == key_count(k, tally_keyed(k)[i].0),
        forall|l: Seq<char>| key_count(k, l) > 0 ==> exists|i: int| 0 <= i < tally_keyed(k).len() && (#[trigger] tally_keyed(k)[i]).0 == l,
    decreases k.len(),
{
    if k.len() > 0 {
        let d = k.drop_last();
        assert forall|m: int| 0 <= m < d.len() implies (#[trigger] d[m]).1 == str_lower(d[m].0) by {
            assert(d[m] == k[m]);
        }
        lemma_tally_props(d);
        let r = tally_keyed(d);
        let (t, key) = k.last();
        assert(key == str_lower(t)) by {
            assert(k[k.len() - 1] == k.last());
        }
        let j = find_key(r, key);
        lemma_find_key_range(r, key);
        let tt = tally_keyed(k);
        if j >= 0 {
            assert(tt == r.update(j, (r[j].0, r[j].1, r[j].2 + 1)));
            assert forall|i: int, i2: int| 0 <= i < i2 < tt.len() implies (#[trigger] tt[i]).0 != (#[trigger] tt[i2]).0 by {
                assert(tt[i].0 == r[i].0 && tt[i2].0 == r[i2].0);
            }
            assert forall|i: int| 0 <= i < tt.len() implies (#[trigger] tt[i]).2 == key_count(k, tt[i].0) by {
                assert(tt[i].0 == r[i].0);
            }
            assert forall|l: Seq<char>| key_count(k, l) > 0 implies exists|i: int| 0 <= i < tt.len() && (#[trigger] tt[i]).0 == l by {
                if l == key {
                    assert(tt[j].0 == l);
                } else {
                    assert(key_count(d, l) > 0);
                    let i = choose|i: int| 0 <= i < r.len() && (#[trigger] r[i]).0 == l;
                    assert(tt[i].0 == l);
                }
            }
        } else {
            lemma_find_key_absent(r, key);
            assert(tt == r.push((key, t, 1nat)));
            assert(key_count(d, key) == 0) by {
                if key_count(d, key) > 0 {
                    let i = choose|i: int| 0 <= i < r.len() && (#[trigger] r[i]).0 == key;
                    assert(r[i].0 != key);
                }
            }
            assert forall|i: int, i2: int| 0 <= i < i2 < tt.len() implies (#[trigger] tt[i]).0 != (#[trigger] tt[i2]).0 by {
                assert(tt[i] == r[i]);
                if i2 < r.len() {
                    assert(tt[i2] == r[i2]);
                }
            }
            assert forall|i: int| 0 <= i < tt.len() implies (#[trigger] tt[i]).2 == key_count(k, tt[i].0) by {
                if i < r.len() {
                    assert(tt[i] == r[i]);
                }
            }
            assert forall|i: int| 0 <= i < tt.len() implies (#[trigger] tt[i]).0 == str_lower(tt[i].1) by {
                if i < r.len() {
                    assert(tt[i] == r[i]);
                }
            }
            assert forall|l: Seq<char>| key_count(k, l) > 0 implies exists|i: int| 0 <= i < tt.len() && (#[trigger] tt[i]).0 == l by {
                if l == key {
                    assert(tt[r.len() as int].0 == l);
                } else {
                    assert(key_count(d, l) > 0);
                    let i = choose|i: int| 0 <= i < r.len() && (#[trigger] r[i]).0 == l;
                    assert(tt[i] == r[i]);
                }
            }
        }
    }
}

proof fn lemma_insert_ranked_shape(s: Seq<TagCount>, x: TagCount)
    ensures
        exists|p: int| 0 <= p <= s.len() && insert_ranked(s, x) == s.take(p) + seq![x] + s.skip(p),
    decreases s.len(),
{
    if s.len() == 0 || ranks_before(x, s[0]) {
        assert(s.take(0) + seq![x] + s.skip(0) =~= seq![x] + s);
        if s.len() == 0 {
            assert(seq![x] + s =~= seq![x]);
        }
    } else {
        let t = s.drop_first();
        lemma_insert_ranked_shape(t, x);
        let q = choose|q: int| 0 <= q <= t.len() && insert_ranked(t, x) == t.take(q) + seq![x] + t.skip(q);
        assert(seq![s[0]] + (t.take(q) + seq![x] + t.skip(q)) =~= s.take(q + 1) + seq![x] + s.skip(q + 1));
    }
}

proof fn lemma_rank_order_keys(t: Seq<TagCount>)
    requires
        distinct_keys(t),
    ensures
        distinct_keys(rank_order(t)),
        rank_order(t).len() == t.len(),
        forall|i: int| 0 <= i < rank_order(t).len() ==> t.contains(#[trigger] rank_order(t)[i]),
        forall|m: int| 0 <= m < t.len() ==> rank_order(t).contains(#[trigger] t[m]),
    decreases t.len(),
{
    if t.len() > 0 {
        let d = t.drop_last();
        assert(distinct_keys(d)) by {
            assert forall|i: int, j: int| 0 <= i < j < d.len() implies (#[trigger] d[i]).0 != (#[trigger] d[j]).0 by {
                assert(d[i] == t[i] && d[j] == t[j]);
            }
        }
        lemma_rank_order_keys(d);
        let s = rank_order(d);
        let x = t.last();
        lemma_insert_ranked_shape(s, x);
        let p = choose|p: int| 0 <= p <= s.len() && insert_ranked(s, x) == s.take(p) + seq![x] + s.skip(p);
        let r = rank_order(t);
        assert(r == s.take(p) + seq![x] + s.skip(p));
        assert forall|i: int| 0 <= i < s.len() implies (#[trigger] s[i]).0 != x.0 by {
            let m = choose|m: int| 0 <= m < d.len() && d[m] == s[i];
            assert(t[m] == d[m]);
            assert(t[t.len() - 1] == x);
        }
        assert forall|i: int| 0 <= i < r.len() implies (i < p ==> #[trigger] r[i] == s[i]) && (i == p ==> r[i] == x) && (i > p ==> r[i] == s[i - 1]) by {}
        assert forall|i: int, j: int| 0 <= i < j < r.len() implies (#[trigger] r[i]).0 != (#[trigger] r[j]).0 by {
            if i < p && j > p {
                assert(r[j] == s[j - 1]);
            } else if i > p {
                assert(r[i] == s[i - 1] && r[j] == s[j - 1]);
            } else if j == p {
                assert(r[i] == s[i]);
            } else if i == p {
                assert(r[j] == s[j - 1]);
            }
        }
        assert forall|i: int| 0 <= i < r.len() implies t.contains(#[trigger] r[i]) by {
            if i == p {
                assert(t[t.len() - 1] == x);
            } else {
                let e = if i < p { s[i] } else { s[i - 1] };
                assert(r[i] == e);
                let m = choose|m: int| 0 <= m < d.len() && d[m] == e;
                assert(t[m] == d[m]);
            }
        }
        assert forall|m: int| 0 <= m < t.len() implies r.contains(#[trigger] t[m]) by {
            if m == t.len() - 1 {
                assert(r[p] == x);
            } else {
                assert(t[m] == d[m]);
                let i = choose|i: int| 0 <= i < s.len() && s[i] == d[m];
                if i < p {
                    assert(r[i] == s[i]);
                } else {
                    assert(r[i + 1] == s[i]);
                }
            }
        }
    }
}

/// Tags are counted case-insensitively: the popular tags list no two tags
/// equal up to case; the count behind each listed tag is the number of the
/// library's (trimmed, non-blank) tags equal to it up to case; and every
/// such tag of the library is represented in the ranking.
pub proof fn law_popular_tags_case_insensitive(items: Seq<Item>, limit: nat)
    ensures
        ({
            let tags = all_tags(items);
            let ranked = rank_order(tally(tags));
            let out = popular_tags_spec(items, limit);
            &&& forall|i: int, j: int| 0 <= i < j < out.len() ==> str_lower(#[trigger] out[i]) != str_lower(#[trigger] out[j])
            &&& forall|i: int| 0 <= i < out.len() ==> (#[trigger] ranked[i]).1 == out[i]
                && ranked[i].2 == tag_count(tags, str_lower(out[i]))
            &&& forall|j: int| 0 <= j < tags.len() && trim(#[trigger] tags[j]).len() > 0 ==> exists|i: int|
                0 <= i < ranked.len() && str_lower((#[trigger] ranked[i]).1) == str_lower(trim(tags[j]))
        }),
{
    let tags = all_tags(items);
    let k = keyed_tags(tags);
    lemma_keyed_tags_props(tags, seq![]);
    lemma_tally_props(k);
    let tt = tally_keyed(k);
    lemma_rank_order_keys(tt);
    let ranked = rank_order(tt);
    let out = popular_tags_spec(items, limit);
    assert forall|i: int| 0 <= i < ranked.len() implies (#[trigger] ranked[i]).0 == str_lower(ranked[i].1)
        && ranked[i].2 == tag_count(tags, ranked[i].0) by {
        let m = choose|m: int| 0 <= m < tt.len() && tt[m] == ranked[i];
        lemma_keyed_tags_props(tags, ranked[i].0);
    }
    assert forall|i: int, j: int| 0 <= i < j < out.len() implies str_lower(#[trigger] out[i]) != str_lower(#[trigger] out[j]) by {
        assert(out[i] == ranked[i].1 && out[j] == ranked[j].1);
    }
    assert forall|j: int| 0 <= j < tags.len() && trim(#[trigger] tags[j]).len() > 0 implies exists|i: int|
        0 <= i < ranked.len() && str_lower((#[trigger] ranked[i]).1) == str_lower(trim(tags[j])) by {
        let l = str_lower(trim(tags[j]));
        lemma_keyed_tags_props(tags, l);
        let m = choose|m: int| 0 <= m < tt.len() && (#[trigger] tt[m]).0 == l;
        let i = choose|i: int| 0 <= i < ranked.len() && ranked[i] == tt[m];
        assert(str_lower(ranked[i].1) == l);
    }
}

proof fn lemma_key_count_zero(k: Seq<(Seq<char>, Seq<char>)>, l: Seq<char>)
    requires
        key_count(k, l) == 0,
    ensures
        forall|m: int| 0 <= m < k.len() ==> (#[trigger] k[m]).1 != l,
    decreases k.len(),
{
    if k.len() > 0 {
        lemma_key_count_zero(k.drop_last(), l);
        assert forall|m: int| 0 <= m < k.len() implies (#[trigger] k[m]).1 != l by {
            if m < k.len() - 1 {
                assert(k[m] == k.drop_last()[m]);
            }
        }
    }
}

/// Each tally entry keeps the spelling of the first pair with its key.
proof fn lemma_tally_first_spelling(k: Seq<(Seq<char>, Seq<char>)>)
    ensures
        forall|i: int| #![trigger tally_keyed(k)[i]] 0 <= i < tally_keyed(k).len() ==> exists|m: int| 0 <= m < k.len()
            && #[trigger] k[m] == (tally_keyed(k)[i].1, tally_keyed(k)[i].0)
            && forall|q: int| 0 <= q < m ==> (#[trigger] k[q]).1 != tally_keyed(k)[i].0,
    decreases k.len(),
{
    if k.len() > 0 {
        let d = k.drop_last();
        lemma_tally_first_spelling(d);
        let r = tally_keyed(d);
        let (t, key) = k.last();
        let j = find_key(r, key);
        lemma_find_key_range(r, key);
        let tt = tally_keyed(k);
        assert forall|i: int| #![trigger tt[i]] 0 <= i < tt.len() implies exists|m: int| 0 <= m < k.len()
            && #[trigger] k[m] == (tt[i].1, tt[i].0)
            && forall|q: int| 0 <= q < m ==> (#[trigger] k[q]).1 != tt[i].0 by {
            if i < r.len() {
                assert(tt[i].0 == r[i].0 && tt[i].1 == r[i].1);
                let m = choose|m: int| 0 <= m < d.len() && #[trigger] d[m] == (r[i].1, r[i].0)
                    && forall|q: int| 0 <= q < m ==> (#[trigger] d[q]).1 != r[i].0;
                assert(k[m] == d[m]);
                assert forall|q: int| 0 <= q < m implies (#[trigger] k[q]).1 != tt[i].0 by {
                    assert(k[q] == d[q]);
                }
            } else {
                lemma_find_key_absent(r, key);
                assert(tt[i] == (key, t, 1nat));
                let m = k.len() - 1;
                assert(k[m] == (t, key));
                assert(key_count(d, key) == 0) by {
                    if key_count(d, key) > 0 {
                        lemma_tally_count_covers(d, key);
                        let i2 = choose|i2: int| 0 <= i2 < r.len() && (#[trigger] r[i2]).0 == key;
                    }
                }
                lemma_key_count_zero(d, key);
                assert forall|q: int| 0 <= q < m implies (#[trigger] k[q]).1 != tt[i].0 by {
                    assert(k[q] == d[q]);
                }
            }
        }
    }
}

/// Every key that occurs has a tally entry.
proof fn lemma_tally_count_covers(k: Seq<(Seq<char>, Seq<char>)>, l: Seq<char>)
    requires
        key_count(k, l) > 0,
    ensures
        exists|i: int| 0 <= i < tally_keyed(k).len() && (#[trigger] tally_keyed(k)[i]).0 == l,
    decreases k.len(),
{
    let d = k.drop_last();
    let r = tally_keyed(d);
    let (t, key) = k.last();
    let j = find_key(r, key);
    lemma_find_key_range(r, key);
    let tt = tally_keyed(k);
    if l == key {
        if j >= 0 {
            assert(tt[j].0 == l);
        } else {
            assert(tt[r.len() as int].0 == l);
        }
    } else {
        lemma_tally_count_covers(d, l);
        let i = choose|i: int| 0 <= i < r.len() && (#[trigger] r[i]).0 == l;
        assert(tt[i].0 == l);
    }
}

/// Where each keyed pair comes from: a non-blank library tag, with no
/// earlier tag of the same key that has no earlier pair.
proof fn lemma_keyed_tags_origin(tags: Seq<Seq<char>>)
    ensures
        forall|m: int| #![trigger keyed_tags(tags)[m]] 0 <= m < keyed_tags(tags).len() ==> exists|j: int| 0 <= j < tags.len()
            && trim(#[trigger] tags[j]).len() > 0
            && keyed_tags(tags)[m] == (trim(tags[j]), str_lower(trim(tags[j])))
            && forall|q: int| 0 <= q < j && trim(#[trigger] tags[q]).len() > 0 && str_lower(trim(tags[q])) == keyed_tags(tags)[m].1
                ==> exists|p: int| 0 <= p < m && (#[trigger] keyed_tags(tags)[p]).1 == keyed_tags(tags)[m].1,
    decreases tags.len(),
{
    if tags.len() > 0 {
        let d = tags.drop_last();
        lemma_keyed_tags_origin(d);
        let r = keyed_tags(d);
        let kk = keyed_tags(tags);
        let t = trim(tags.last());
        assert forall|m: int| #![trigger kk[m]] 0 <= m < kk.len() implies exists|j: int| 0 <= j < tags.len()
            && trim(#[trigger] tags[j]).len() > 0
            && kk[m] == (trim(tags[j]), str_lower(trim(tags[j])))
            && forall|q: int| 0 <= q < j && trim(#[trigger] tags[q]).len() > 0 && str_lower(trim(tags[q])) == kk[m].1
                ==> exists|p: int| 0 <= p < m && (#[trigger] kk[p]).1 == kk[m].1 by {
            if m < r.len() {
                assert(kk[m] == r[m]);
                let j = choose|j: int| 0 <= j < d.len()
                    && trim(#[trigger] d[j]).len() > 0
                    && r[m] == (trim(d[j]), str_lower(trim(d[j])))
                    && forall|q: int| 0 <= q < j && trim(#[trigger] d[q]).len() > 0 && str_lower(trim(d[q])) == r[m].1
                        ==> exists|p: int| 0 <= p < m && (#[trigger] r[p]).1 == r[m].1;
                assert(tags[j] == d[j]);
                assert forall|q: int| 0 <= q < j && trim(#[trigger] tags[q]).len() > 0 && str_lower(trim(tags[q])) == kk[m].1
                    implies exists|p: int| 0 <= p < m && (#[trigger] kk[p]).1 == kk[m].1 by {
                    assert(tags[q] == d[q]);
                    let p = choose|p: int| 0 <= p < m && (#[trigger] r[p]).1 == r[m].1;
                    assert(kk[p] == r[p]);
                }
            } else {
                let j = tags.len() - 1;
                assert(t.len() > 0);
                assert(kk[m] == (t, str_lower(t)));
                assert forall|q: int| 0 <= q < j && trim(#[trigger] tags[q]).len() > 0 && str_lower(trim(tags[q])) == kk[m].1
                    implies exists|p: int| 0 <= p < m && (#[trigger] kk[p]).1 == kk[m].1 by {
                    assert(tags[q] == d[q]);
                    lemma_keyed_tags_props(d, kk[m].1);
                    assert(key_count(r, str_lower(trim(d[q]))) > 0);
                    lemma_key_count_pos(r, kk[m].1);
                    let p = choose|p: int| 0 <= p < r.len() && (#[trigger] r[p]).1 == kk[m].1;
                    assert(kk[p] == r[p]);
                }
            }
        }
    }
}

#[verifier::rlimit(30)]
proof fn lemma_entry_first_spelling(tags: Seq<Seq<char>>, e: TagCount)
    requires
        tally(tags).contains(e),
    ensures
        exists|j: int| 0 <= j < tags.len()
            && trim(#[trigger] tags[j]) == e.1
            && trim(tags[j]).len() > 0
            && forall|q: int| 0 <= q < j ==> !(trim(#[trigger] tags[q]).len() > 0 && str_lower(trim(tags[q])) == str_lower(e.1)),
{
    let k = keyed_tags(tags);
    lemma_tally_first_spelling(k);
    lemma_keyed_tags_origin(tags);
    let tt = tally_keyed(k);
    let n = choose|n: int| 0 <= n < tt.len() && tt[n] == e;
    let m = choose|m: int| 0 <= m < k.len() && #[trigger] k[m] == (tt[n].1, tt[n].0)
        && forall|q: int| 0 <= q < m ==> (#[trigger] k[q]).1 != tt[n].0;
    let j = choose|j: int| 0 <= j < tags.len()
        && trim(#[trigger] tags[j]).len() > 0
        && k[m] == (trim(tags[j]), str_lower(trim(tags[j])))
        && forall|q: int| 0 <= q < j && trim(#[trigger] tags[q]).len() > 0 && str_lower(trim(tags[q])) == k[m].1
            ==> exists|p: int| 0 <= p < m && (#[trigger] k[p]).1 == k[m].1;
    assert forall|q: int| 0 <= q < j implies !(trim(#[trigger] tags[q]).len() > 0 && str_lower(trim(tags[q])) == str_lower(e.1)) by {
        if trim(tags[q]).len() > 0 && str_lower(trim(tags[q])) == str_lower(e.1) {
            let p = choose|p: int| 0 <= p < m && (#[trigger] k[p]).1 == k[m].1;
            assert(k[p].1 != tt[n].0);
        }
    }
}

/// Each popular tag is shown in the spelling of its first use: the trimmed
/// text of the first non-blank library tag equal to it up to case.
pub proof fn law_popular_tags_first_spelling(items: Seq<Item>, limit: nat)
    ensures
        ({
            let tags = all_tags(items);
            let out = popular_tags_spec(items, limit);
            forall|i: int| #![trigger out[i]] 0 <= i < out.len() ==> exists|j: int| 0 <= j < tags.len()
                && trim(#[trigger] tags[j]) == out[i]
                && trim(tags[j]).len() > 0
                && forall|q: int| 0 <= q < j ==> !(trim(#[trigger] tags[q]).len() > 0 && str_lower(trim(tags[q])) == str_lower(out[i]))
        }),
{
    let tags = all_tags(items);
    let k = keyed_tags(tags);
    lemma_keyed_tags_props(tags, seq![]);
    lemma_tally_props(k);
    let tt = tally_keyed(k);
    lemma_rank_order_keys(tt);
    let ranked = rank_order(tt);
    let out = popular_tags_spec(items, limit);
    assert forall|i: int| #![trigger out[i]] 0 <= i < out.len() implies exists|j: int| 0 <= j < tags.len()
        && trim(#[trigger] tags[j]) == out[i]
        && trim(tags[j]).len() > 0
        && forall|q: int| 0 <= q < j ==> !(trim(#[trigger] tags[q]).len() > 0 && str_lower(trim(tags[q])) == str_lower(out[i])) by {
        assert(out[i] == ranked[i].1);
        assert(tt.contains(ranked[i]));
        lemma_entry_first_spelling(tags, ranked[i]);
    }
}

/// The ranking behind [`popular_tags`] lists every distinct tag once, more
/// uses first and ties in alphabetical order; the result is its first
/// `limit` spellings.
pub proof fn law_popular_tags_ranked(items: Seq<Item>, limit: nat)
    ensures
        ({
            let ranked = rank_order(tally(all_tags(items)));
            let out = popular_tags_spec(items, limit);
            &&& rank_sorted(ranked)
            &&& ranked.len() == tally(all_tags(items)).len()
            &&& out.len() == if limit < ranked.len() { limit } else { ranked.len() }
            &&& forall|i: int| 0 <= i < out.len() ==> #[trigger] out[i] == ranked[i].1
        }),
{
    lemma_rank_order_sorted(tally(all_tags(items)));
}
} // verus!
