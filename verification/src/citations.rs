//! Citation graph support: identifier normalization, the OpenAlex queries a
//! graph needs, turning OpenAlex work records into related papers, and
//! matching each related paper against the user's library.

use vstd::prelude::*;

use crate::models::{opt_view, views, CitationGraph, Item, Library, RelatedPaper};
use crate::text::{
    char_lower, char_to_lowercase, chars_of, concat, has_prefix, has_prefix_exec, is_alnum,
    is_alphanumeric, percent_encode, push_char, push_str, slice_chars, str_lower, string_of,
    to_lowercase, trim, trim_chars, trim_str, url_encode_path, is_ws, trim_front, trim_back,
};

verus! {

/// Most references expanded per graph.
pub const MAX_REFERENCES: usize = 100;
/// Most citing works fetched per graph.
pub const MAX_CITATIONS: usize = 50;
/// OpenAlex ids per batched `filter=openalex:..|..` query.
pub const ID_CHUNK: usize = 50;

/// `d` without a leading `https://doi.org/`, `http://doi.org/` or `doi.org/`
/// (the first that matches).
pub open spec fn strip_doi_prefix(d: Seq<char>) -> Seq<char> {
    if has_prefix(d, "https://doi.org/"@) {
        d.skip("https://doi.org/"@.len() as int)
    } else if has_prefix(d, "http://doi.org/"@) {
        d.skip("http://doi.org/"@.len() as int)
    } else if has_prefix(d, "doi.org/"@) {
        d.skip("doi.org/"@.len() as int)
    } else {
        d
    }
}

/// A DOI in bare lower-case form: trimmed, lower-cased, URL prefix removed,
/// trimmed again.
pub open spec fn normalize_doi_spec(doi: Seq<char>) -> Seq<char> {
    trim(strip_doi_prefix(str_lower(trim(doi))))
}

proof fn lemma_doi_prefix_of(p: Seq<char>, d: Seq<char>)
    requires
        p == "https://doi.org/"@ || p == "http://doi.org/"@ || p == "doi.org/"@,
    ensures
        strip_doi_prefix(p + d) == d,
{
    reveal_strlit("https://doi.org/");
    reveal_strlit("http://doi.org/");
    reveal_strlit("doi.org/");
    let s = p + d;
    assert(s.subrange(0, p.len() as int) =~= p);
    if p == "http://doi.org/"@ {
        assert(s[4] == ':');
        assert(!has_prefix(s, "https://doi.org/"@));
    }
    if p == "doi.org/"@ {
        assert(s[0] == 'd');
        assert(!has_prefix(s, "https://doi.org/"@));
        assert(!has_prefix(s, "http://doi.org/"@));
    }
    assert(s.skip(p.len() as int) =~= d);
}

/// A DOI URL prefix is removed, and nothing else: for every DOI `d`,
/// `https://doi.org/d`, `http://doi.org/d` and `doi.org/d` all normalize to
/// `d` trimmed, and a DOI without such a prefix is only trimmed. (Stated on
/// the lower-cased text, which is all that [`normalize_doi`] reads after
/// lower-casing; see [`bare_doi`].)
pub proof fn law_doi_url_prefix_removed(d: Seq<char>)
    ensures
        trim(strip_doi_prefix("https://doi.org/"@ + d)) == trim(d),
        trim(strip_doi_prefix("http://doi.org/"@ + d)) == trim(d),
        trim(strip_doi_prefix("doi.org/"@ + d)) == trim(d),
        !has_prefix(d, "https://doi.org/"@) && !has_prefix(d, "http://doi.org/"@) && !has_prefix(d, "doi.org/"@)
            ==> trim(strip_doi_prefix(d)) == trim(d),
        forall|doi: Seq<char>|
            #![trigger normalize_doi_spec(doi)]
            str_lower(trim(doi)) == "https://doi.org/"@ + d || str_lower(trim(doi)) == "http://doi.org/"@ + d
                || str_lower(trim(doi)) == "doi.org/"@ + d ==> normalize_doi_spec(doi) == trim(d),
        forall|doi: Seq<char>|
            #![trigger normalize_doi_spec(doi)]
            !has_prefix(str_lower(trim(doi)), "https://doi.org/"@) && !has_prefix(str_lower(trim(doi)), "http://doi.org/"@)
                && !has_prefix(str_lower(trim(doi)), "doi.org/"@) ==> normalize_doi_spec(doi) == trim(str_lower(trim(doi))),
{
    lemma_doi_prefix_of("https://doi.org/"@, d);
    lemma_doi_prefix_of("http://doi.org/"@, d);
    lemma_doi_prefix_of("doi.org/"@, d);
}

fn strip_prefix_lit(v: &Vec<char>, p: &str) -> (r: Option<Vec<char>>)
    ensures
        has_prefix(v@, p@) ==> (r matches Some(x) && x@ == v@.skip(p@.len() as int)),
        !has_prefix(v@, p@) ==> r is None,
{
    let pv = chars_of(p);
    if has_prefix_exec(v, &pv) {
        Some(slice_chars(v, pv.len(), v.len()))
    } else {
        None
    }
}

/// A lower-cased DOI without its URL prefix, trimmed: what follows the
/// lower-casing in [`normalize_doi`].
pub fn bare_doi(lowered: &str) -> (r: String)
    ensures
        r@ == trim(strip_doi_prefix(lowered@)),
{
    let dv = chars_of(lowered);
    let stripped = match strip_prefix_lit(&dv, "https://doi.org/") {
        Some(x) => x,
        None => match strip_prefix_lit(&dv, "http://doi.org/") {
            Some(x) => x,
            None => match strip_prefix_lit(&dv, "doi.org/") {
                Some(x) => x,
                None => dv,
            },
        },
    };
    let out = trim_chars(&stripped);
    string_of(&out)
}

/// Normalize a DOI to a bare lowercase form (strip URL prefixes), for matching.
pub fn normalize_doi(doi: &str) -> (r: String)
    ensures
        r@ == normalize_doi_spec(doi@),
{
    let t = trim_str(doi);
    let d = to_lowercase(t.as_str());
    bare_doi(d.as_str())
}

/// Title folding state: (text so far, whether it ends in a separator).
pub open spec fn title_fold(s: Seq<char>) -> (Seq<char>, bool)
    decreases s.len(),
{
    if s.len() == 0 {
        (seq![], false)
    } else {
        let (o, sep) = title_fold(s.drop_last());
        let c = s.last();
        if is_alnum(c) {
            (o + char_lower(c), false)
        } else if !sep {
            (o.push(' '), true)
        } else {
            (o, sep)
        }
    }
}

/// A title for fuzzy-but-strict matching: letters and digits lower-cased,
/// every run of other characters collapsed to one space, trimmed.
pub open spec fn normalize_title_spec(title: Seq<char>) -> Seq<char> {
    trim(title_fold(title).0)
}

/// `s` without its white-space characters.
pub open spec fn drop_ws(s: Seq<char>) -> Seq<char>
    decreases s.len(),
{
    if s.len() == 0 {
        s
    } else if is_ws(s.last()) {
        drop_ws(s.drop_last())
    } else {
        drop_ws(s.drop_last()).push(s.last())
    }
}

/// The lower-cased forms of the letters and digits of `s`, in order,
/// run together.
pub open spec fn alnum_lowered(s: Seq<char>) -> Seq<char>
    decreases s.len(),
{
    if s.len() == 0 {
        seq![]
    } else if is_alnum(s.last()) {
        alnum_lowered(s.drop_last()) + char_lower(s.last())
    } else {
        alnum_lowered(s.drop_last())
    }
}

proof fn lemma_drop_ws_concat(a: Seq<char>, b: Seq<char>)
    ensures
        drop_ws(a + b) == drop_ws(a) + drop_ws(b),
    decreases b.len(),
{
    if b.len() == 0 {
        assert(a + b =~= a);
        assert(drop_ws(a) + drop_ws(b) =~= drop_ws(a));
    } else {
        assert((a + b).drop_last() =~= a + b.drop_last());
        lemma_drop_ws_concat(a, b.drop_last());
        assert((a + b).last() == b.last());
        if !is_ws(b.last()) {
            assert(drop_ws(a) + drop_ws(b.drop_last()).push(b.last()) =~= (drop_ws(a) + drop_ws(b.drop_last())).push(b.last()));
        }
    }
}

proof fn lemma_drop_ws_front(s: Seq<char>)
    ensures
        drop_ws(trim_front(s)) == drop_ws(s),
    decreases s.len(),
{
    if s.len() > 0 && is_ws(s[0]) {
        lemma_drop_ws_front(s.drop_first());
        let c = seq![s[0]];
        assert(s =~= c + s.drop_first());
        lemma_drop_ws_concat(c, s.drop_first());
        assert(c.drop_last() =~= Seq::<char>::empty());
        assert(drop_ws(Seq::<char>::empty()) == Seq::<char>::empty());
        assert(drop_ws(c) == drop_ws(c.drop_last()));
        assert(drop_ws(c) + drop_ws(s.drop_first()) =~= drop_ws(s.drop_first()));
    }
}

proof fn lemma_drop_ws_back(s: Seq<char>)
    ensures
        drop_ws(trim_back(s)) == drop_ws(s),
    decreases s.len(),
{
    if s.len() > 0 && is_ws(s.last()) {
        lemma_drop_ws_back(s.drop_last());
    }
}

proof fn lemma_drop_ws_trim(s: Seq<char>)
    ensures
        drop_ws(trim(s)) == drop_ws(s),
{
    lemma_drop_ws_front(s);
    lemma_drop_ws_back(trim_front(s));
}

proof fn lemma_fold_keeps_alnum(t: Seq<char>)
    ensures
        drop_ws(title_fold(t).0) == drop_ws(alnum_lowered(t)),
    decreases t.len(),
{
    if t.len() > 0 {
        lemma_fold_keeps_alnum(t.drop_last());
        let o = title_fold(t.drop_last()).0;
        let c = t.last();
        if is_alnum(c) {
            lemma_drop_ws_concat(o, char_lower(c));
            lemma_drop_ws_concat(alnum_lowered(t.drop_last()), char_lower(c));
        } else {
            assert(o.push(' ').drop_last() =~= o);
            assert(is_ws(' '));
        }
    }
}

proof fn lemma_fold_no_alnum(t: Seq<char>)
    requires
        forall|i: int| 0 <= i < t.len() ==> !is_alnum(#[trigger] t[i]),
    ensures
        title_fold(t).0 == Seq::<char>::empty() || title_fold(t).0 == seq![' '],
        title_fold(t).0.len() > 0 ==> title_fold(t).1,
    decreases t.len(),
{
    if t.len() > 0 {
        assert(!is_alnum(t[t.len() - 1]));
        lemma_fold_no_alnum(t.drop_last());
        if title_fold(t.drop_last()).0.len() == 0 {
            assert(title_fold(t.drop_last()).0.push(' ') =~= seq![' ']);
        }
    }
}

/// What title normalization keeps and drops: every letter and digit of the
/// title appears, lower-cased and in order, in the normalized title (which,
/// its white space aside, is nothing else); a title with no letter or digit
/// normalizes to nothing.
pub proof fn law_title_keeps_letters_and_digits(t: Seq<char>)
    ensures
        drop_ws(normalize_title_spec(t)) == drop_ws(alnum_lowered(t)),
        (forall|i: int| 0 <= i < t.len() ==> !is_alnum(#[trigger] t[i])) ==> normalize_title_spec(t).len() == 0,
{
    lemma_fold_keeps_alnum(t);
    lemma_drop_ws_trim(title_fold(t).0);
    if forall|i: int| 0 <= i < t.len() ==> !is_alnum(#[trigger] t[i]) {
        lemma_fold_no_alnum(t);
        let o = title_fold(t).0;
        if o.len() > 0 {
            assert(is_ws(o[0]));
            assert(trim_front(o.drop_first()) == o.drop_first());
            assert(o.drop_first() =~= Seq::<char>::empty());
        }
    }
}

/// Every character of `s` is a letter or digit.
pub open spec fn all_alnum(s: Seq<char>) -> bool {
    forall|i: int| 0 <= i < s.len() ==> is_alnum(#[trigger] s[i])
}

/// No character of `s` is a letter or digit.
pub open spec fn no_alnum(s: Seq<char>) -> bool {
    forall|i: int| 0 <= i < s.len() ==> !is_alnum(#[trigger] s[i])
}

proof fn lemma_fold_append_alnum(x: Seq<char>, b: Seq<char>)
    requires
        all_alnum(b),
    ensures
        title_fold(x + b).0 == title_fold(x).0 + alnum_lowered(b),
        b.len() > 0 ==> !title_fold(x + b).1,
        b.len() == 0 ==> title_fold(x + b) == title_fold(x),
    decreases b.len(),
{
    if b.len() == 0 {
        assert(x + b =~= x);
        assert(title_fold(x).0 + alnum_lowered(b) =~= title_fold(x).0);
    } else {
        let bd = b.drop_last();
        assert(all_alnum(bd)) by {
            assert forall|i: int| 0 <= i < bd.len() implies is_alnum(#[trigger] bd[i]) by {
                assert(bd[i] == b[i]);
            }
        }
        lemma_fold_append_alnum(x, bd);
        assert((x + b).drop_last() =~= x + bd);
        assert((x + b).last() == b.last());
        assert(is_alnum(b[b.len() - 1]));
        assert(title_fold(x).0 + alnum_lowered(bd) + char_lower(b.last()) =~= title_fold(x).0 + (alnum_lowered(bd)
            + char_lower(b.last())));
    }
}

proof fn lemma_fold_append_sep(x: Seq<char>, s: Seq<char>)
    requires
        no_alnum(s),
        s.len() > 0,
        !title_fold(x).1,
    ensures
        title_fold(x + s) == (title_fold(x).0.push(' '), true),
    decreases s.len(),
{
    let sd = s.drop_last();
    assert((x + s).drop_last() =~= x + sd);
    assert((x + s).last() == s.last());
    assert(!is_alnum(s[s.len() - 1]));
    if sd.len() > 0 {
        assert(no_alnum(sd)) by {
            assert forall|i: int| 0 <= i < sd.len() implies !is_alnum(#[trigger] sd[i]) by {
                assert(sd[i] == s[i]);
            }
        }
        lemma_fold_append_sep(x, sd);
    } else {
        assert(x + sd =~= x);
    }
}

/// Title normalization on words and separators: a title made of letters
/// and digits normalizes to their lower-cased forms; two such words joined
/// by any non-empty run of other characters normalize to the two words
/// joined by exactly one space (so "ResNet-50" and "ResNet-101" stay apart,
/// and "a -- b" and "a b" agree).
pub proof fn law_title_words_and_separators(a: Seq<char>, s: Seq<char>, b: Seq<char>)
    requires
        all_alnum(a),
        all_alnum(b),
    ensures
        normalize_title_spec(a) == trim(alnum_lowered(a)),
        no_alnum(s) && s.len() > 0 ==> normalize_title_spec(a + s + b) == trim(
            alnum_lowered(a) + seq![' '] + alnum_lowered(b),
        ),
{
    let e = Seq::<char>::empty();
    assert(e + a =~= a);
    lemma_fold_append_alnum(e, a);
    assert(title_fold(e).0 + alnum_lowered(a) =~= alnum_lowered(a));
    assert(title_fold(a).0 == alnum_lowered(a));
    assert(!title_fold(a).1) by {
        if a.len() == 0 {
            assert(a =~= e);
        }
    }
    if no_alnum(s) && s.len() > 0 {
        lemma_fold_append_sep(a, s);
        lemma_fold_append_alnum(a + s, b);
        assert(alnum_lowered(a).push(' ') + alnum_lowered(b) =~= alnum_lowered(a) + seq![' '] + alnum_lowered(b));
    }
}

/// What the title folding reads of each character: its lower-case form
/// when it is a letter or digit, `None` otherwise.
pub open spec fn char_info(s: Seq<char>) -> Seq<Option<Seq<char>>> {
    Seq::new(s.len(), |i: int| if is_alnum(s[i]) { Some(char_lower(s[i])) } else { None })
}

/// Title folding over per-character information (see [`title_fold`]).
pub open spec fn fold_info(info: Seq<Option<Seq<char>>>) -> (Seq<char>, bool)
    decreases info.len(),
{
    if info.len() == 0 {
        (seq![], false)
    } else {
        let (o, sep) = fold_info(info.drop_last());
        match info.last() {
            Some(low) => (o + low, false),
            None => if !sep {
                (o.push(' '), true)
            } else {
                (o, sep)
            },
        }
    }
}

proof fn lemma_fold_info(s: Seq<char>)
    ensures
        fold_info(char_info(s)) == title_fold(s),
    decreases s.len(),
{
    if s.len() > 0 {
        lemma_fold_info(s.drop_last());
        assert(char_info(s).drop_last() =~= char_info(s.drop_last()));
    }
}

/// Views of per-character information.
pub open spec fn info_view(v: Seq<Option<Vec<char>>>) -> Seq<Option<Seq<char>>> {
    Seq::new(v.len(), |i: int| match v[i] {
        Some(l) => Some(l@),
        None => None,
    })
}

/// Folds per-character information into a normalized title: what follows
/// the per-character classification and lower-casing in [`normalize_title`].
pub fn fold_title(info: &Vec<Option<Vec<char>>>) -> (r: String)
    ensures
        r@ == trim(fold_info(info_view(info@)).0),
{
    let ghost iv = info_view(info@);
    let mut out: Vec<char> = Vec::new();
    let mut prev_space = false;
    let mut i: usize = 0;
    while i < info.len()
        invariant
            i <= info.len(),
            iv == info_view(info@),
            (out@, prev_space) == fold_info(iv.take(i as int)),
        decreases info.len() - i,
    {
        proof {
            assert(iv.take(i + 1).drop_last() =~= iv.take(i as int));
        }
        match &info[i] {
            Some(low) => {
                let mut k: usize = 0;
                let ghost base = out@;
                while k < low.len()
                    invariant
                        k <= low.len(),
                        out@ == base + low@.take(k as int),
                    decreases low.len() - k,
                {
                    out.push(low[k]);
                    proof {
                        assert(base + low@.take(k + 1) =~= (base + low@.take(k as int)).push(low@[k as int]));
                    }
                    k += 1;
                }
                assert(low@.take(low.len() as int) =~= low@);
                prev_space = false;
            },
            None => {
                if !prev_space {
                    out.push(' ');
                    prev_space = true;
                }
            },
        }
        i += 1;
    }
    assert(iv.take(info.len() as int) =~= iv);
    let t = trim_chars(&out);
    string_of(&t)
}

/// Normalize a title for matching: lowercase, drop anything that isn't a
/// letter/number, collapse to single spaces.
pub fn normalize_title(title: &str) -> (r: String)
    ensures
        r@ == normalize_title_spec(title@),
{
    let v = chars_of(title);
    let mut info: Vec<Option<Vec<char>>> = Vec::new();
    let mut i: usize = 0;
    while i < v.len()
        invariant
            i <= v.len(),
            v@ == title@,
            info_view(info@) =~= char_info(v@).take(i as int),
        decreases v.len() - i,
    {
        let ch = v[i];
        let ghost before = info@;
        if is_alphanumeric(ch) {
            info.push(Some(char_to_lowercase(ch)));
        } else {
            info.push(None);
        }
        proof {
            assert(info_view(info@) =~= info_view(before).push(char_info(v@)[i as int]));
        }
        i += 1;
    }
    proof {
        assert(char_info(v@).take(v.len() as int) =~= char_info(v@));
        lemma_fold_info(v@);
    }
    fold_title(&info)
}

/// The part of `s` after its last `/` (all of `s` when it has none).
pub open spec fn after_last_slash(s: Seq<char>) -> Seq<char>
    decreases s.len(),
{
    if s.len() == 0 {
        s
    } else if s.last() == '/' {
        seq![]
    } else {
        after_last_slash(s.drop_last()).push(s.last())
    }
}

/// The last path segment of an OpenAlex id URL (`.../W2741809807` → `W2741809807`), trimmed.
pub fn short_id(id: &str) -> (r: String)
    ensures
        r@ == trim(after_last_slash(id@)),
{
    let v = chars_of(id);
    let mut start: usize = v.len();
    assert(v@.take(v.len() as int) =~= v@);
    assert(v@.subrange(v.len() as int, v.len() as int) =~= Seq::<char>::empty());
    assert(after_last_slash(v@) + Seq::<char>::empty() =~= after_last_slash(v@));
    while start > 0 && v[start - 1] != '/'
        invariant
            start <= v.len(),
            v@ == id@,
            after_last_slash(v@) == after_last_slash(v@.take(start as int)) + v@.subrange(start as int, v.len() as int),
        decreases start,
    {
        proof {
            let t = v@.take(start as int);
            assert(t.drop_last() =~= v@.take(start - 1));
            assert(v@.subrange(start - 1, v.len() as int) =~= seq![v@[start - 1]] + v@.subrange(start as int, v.len() as int));
            assert(after_last_slash(t) == after_last_slash(t.drop_last()).push(t.last()));
            assert(after_last_slash(t.drop_last()).push(t.last()) + v@.subrange(start as int, v.len() as int)
                =~= after_last_slash(t.drop_last()) + v@.subrange(start - 1, v.len() as int));
        }
        start -= 1;
    }
    proof {
        let t = v@.take(start as int);
        if start > 0 {
            assert(t.last() == '/');
        }
        assert(after_last_slash(t) =~= Seq::<char>::empty());
        assert(Seq::<char>::empty() + v@.subrange(start as int, v.len() as int) =~= v@.subrange(start as int, v.len() as int));
        assert(v@.take(v.len() as int) =~= v@);
        assert(v@.subrange(v.len() as int, v.len() as int) =~= Seq::<char>::empty());
    }
    let seg = slice_chars(&v, start, v.len());
    let t = trim_chars(&seg);
    string_of(&t)
}


/// (normalized DOI or title, item key) pairs, in library order.
pub type NameIndex = Seq<(Seq<char>, Seq<char>)>;

/// The items' non-empty normalized DOIs with their keys.
pub open spec fn doi_index(items: Seq<Item>) -> NameIndex
    decreases items.len(),
{
    if items.len() == 0 {
        seq![]
    } else {
        let r = doi_index(items.drop_last());
        let it = items.last();
        match it.doi {
            Some(d) => if normalize_doi_spec(d@).len() > 0 {
                r.push((normalize_doi_spec(d@), it.key@))
            } else {
                r
            },
            None => r,
        }
    }
}

/// The items' non-empty normalized titles with their keys.
pub open spec fn title_index(items: Seq<Item>) -> NameIndex
    decreases items.len(),
{
    if items.len() == 0 {
        seq![]
    } else {
        let r = title_index(items.drop_last());
        let it = items.last();
        if normalize_title_spec(it.title@).len() > 0 {
            r.push((normalize_title_spec(it.title@), it.key@))
        } else {
            r
        }
    }
}

/// The key of the first entry named `n`.
pub open spec fn lookup_first(idx: NameIndex, n: Seq<char>) -> Option<Seq<char>>
    decreases idx.len(),
{
    if idx.len() == 0 {
        None
    } else if idx[0].0 == n {
        Some(idx[0].1)
    } else {
        lookup_first(idx.drop_first(), n)
    }
}

/// The library item a related paper matches: by normalized DOI first
/// (first item with that DOI), then by normalized title.
pub open spec fn library_match(items: Seq<Item>, doi: Option<Seq<char>>, title: Seq<char>) -> Option<Seq<char>> {
    let by_doi = match doi {
        Some(d) => lookup_first(doi_index(items), normalize_doi_spec(d)),
        None => None,
    };
    if by_doi is Some {
        by_doi
    } else if normalize_title_spec(title).len() == 0 {
        None
    } else {
        lookup_first(title_index(items), normalize_title_spec(title))
    }
}

/// Item `j` carries a DOI whose normalized form is `n`.
pub open spec fn doi_hit(items: Seq<Item>, j: int, n: Seq<char>) -> bool {
    items[j].doi matches Some(e) && normalize_doi_spec(e@) == n
}

/// Item `j`'s normalized title is `n`.
pub open spec fn title_hit(items: Seq<Item>, j: int, n: Seq<char>) -> bool {
    normalize_title_spec(items[j].title@) == n
}

proof fn lemma_lookup_push(idx: NameIndex, x: (Seq<char>, Seq<char>), n: Seq<char>)
    ensures
        lookup_first(idx.push(x), n) == if lookup_first(idx, n) is Some {
            lookup_first(idx, n)
        } else if x.0 == n {
            Some(x.1)
        } else {
            None
        },
    decreases idx.len(),
{
    if idx.len() > 0 {
        assert(idx.push(x).drop_first() =~= idx.drop_first().push(x));
        assert(idx.push(x)[0] == idx[0]);
        lemma_lookup_push(idx.drop_first(), x, n);
    } else {
        assert(idx.push(x).drop_first() =~= Seq::<(Seq<char>, Seq<char>)>::empty());
        assert(idx.push(x)[0] == x);
        assert(lookup_first(Seq::<(Seq<char>, Seq<char>)>::empty(), n) is None);
    }
}

proof fn lemma_doi_lookup(items: Seq<Item>, n: Seq<char>)
    requires
        n.len() > 0,
    ensures
        (forall|j: int| 0 <= j < items.len() ==> !#[trigger] doi_hit(items, j, n)) ==> lookup_first(doi_index(items), n) is None,
        forall|k: int|
            0 <= k < items.len() && #[trigger] doi_hit(items, k, n) && (forall|j: int| 0 <= j < k ==> !#[trigger] doi_hit(items, j, n))
                ==> lookup_first(doi_index(items), n) == Some(items[k].key@),
    decreases items.len(),
{
    if items.len() > 0 {
        let d = items.drop_last();
        lemma_doi_lookup(d, n);
        let it = items.last();
        match it.doi {
            Some(e) => if normalize_doi_spec(e@).len() > 0 {
                lemma_lookup_push(doi_index(d), (normalize_doi_spec(e@), it.key@), n);
            },
            None => {},
        }
        assert forall|j: int| 0 <= j < d.len() implies doi_hit(d, j, n) == doi_hit(items, j, n) by {
            assert(d[j] == items[j]);
        }
        assert forall|k: int|
            0 <= k < items.len() && #[trigger] doi_hit(items, k, n) && (forall|j: int| 0 <= j < k ==> !#[trigger] doi_hit(items, j, n))
            implies lookup_first(doi_index(items), n) == Some(items[k].key@) by {
            if k < d.len() {
                assert(doi_hit(d, k, n));
                assert forall|j: int| 0 <= j < k implies !#[trigger] doi_hit(d, j, n) by {
                    assert(doi_hit(d, j, n) == doi_hit(items, j, n));
                }
            } else {
                assert forall|j: int| 0 <= j < d.len() implies !#[trigger] doi_hit(d, j, n) by {
                    assert(doi_hit(d, j, n) == doi_hit(items, j, n));
                }
            }
        }
        if forall|j: int| 0 <= j < items.len() ==> !#[trigger] doi_hit(items, j, n) {
            assert forall|j: int| 0 <= j < d.len() implies !#[trigger] doi_hit(d, j, n) by {
                assert(doi_hit(d, j, n) == doi_hit(items, j, n));
            }
            assert(!doi_hit(items, items.len() - 1, n));
        }
    }
}

proof fn lemma_title_lookup(items: Seq<Item>, n: Seq<char>)
    requires
        n.len() > 0,
    ensures
        (forall|j: int| 0 <= j < items.len() ==> !#[trigger] title_hit(items, j, n)) ==> lookup_first(title_index(items), n) is None,
        forall|k: int|
            0 <= k < items.len() && #[trigger] title_hit(items, k, n) && (forall|j: int| 0 <= j < k ==> !#[trigger] title_hit(items, j, n))
                ==> lookup_first(title_index(items), n) == Some(items[k].key@),
    decreases items.len(),
{
    if items.len() > 0 {
        let d = items.drop_last();
        lemma_title_lookup(d, n);
        let it = items.last();
        if normalize_title_spec(it.title@).len() > 0 {
            lemma_lookup_push(title_index(d), (normalize_title_spec(it.title@), it.key@), n);
        }
        assert forall|j: int| 0 <= j < d.len() implies title_hit(d, j, n) == title_hit(items, j, n) by {
            assert(d[j] == items[j]);
        }
        assert forall|k: int|
            0 <= k < items.len() && #[trigger] title_hit(items, k, n) && (forall|j: int| 0 <= j < k ==> !#[trigger] title_hit(items, j, n))
            implies lookup_first(title_index(items), n) == Some(items[k].key@) by {
            if k < d.len() {
                assert(title_hit(d, k, n));
                assert forall|j: int| 0 <= j < k implies !#[trigger] title_hit(d, j, n) by {
                    assert(title_hit(d, j, n) == title_hit(items, j, n));
                }
            } else {
                assert forall|j: int| 0 <= j < d.len() implies !#[trigger] title_hit(d, j, n) by {
                    assert(title_hit(d, j, n) == title_hit(items, j, n));
                }
            }
        }
        if forall|j: int| 0 <= j < items.len() ==> !#[trigger] title_hit(items, j, n) {
            assert forall|j: int| 0 <= j < d.len() implies !#[trigger] title_hit(d, j, n) by {
                assert(title_hit(d, j, n) == title_hit(items, j, n));
            }
            assert(!title_hit(items, items.len() - 1, n));
        }
    }
}

/// `doi`, normalized, is non-empty and some item's normalized DOI.
pub open spec fn doi_found(items: Seq<Item>, doi: Option<Seq<char>>) -> bool {
    match doi {
        Some(d) => normalize_doi_spec(d).len() > 0 && exists|j: int|
            0 <= j < items.len() && #[trigger] doi_hit(items, j, normalize_doi_spec(d)),
        None => false,
    }
}

proof fn lemma_match_by_doi(items: Seq<Item>, d: Seq<char>, title: Seq<char>, k: int)
    requires
        normalize_doi_spec(d).len() > 0,
        0 <= k < items.len(),
        doi_hit(items, k, normalize_doi_spec(d)),
        forall|j: int| 0 <= j < k ==> !#[trigger] doi_hit(items, j, normalize_doi_spec(d)),
    ensures
        library_match(items, Some(d), title) == Some(items[k].key@),
{
    lemma_doi_lookup(items, normalize_doi_spec(d));
}

proof fn lemma_match_no_doi(items: Seq<Item>, doi: Option<Seq<char>>, title: Seq<char>)
    requires
        !doi_found(items, doi),
    ensures
        library_match(items, doi, title) == (if normalize_title_spec(title).len() == 0 {
            None
        } else {
            lookup_first(title_index(items), normalize_title_spec(title))
        }),
{
    match doi {
        Some(d) => {
            let dn = normalize_doi_spec(d);
            if dn.len() > 0 {
                lemma_doi_lookup(items, dn);
                assert(forall|j: int| 0 <= j < items.len() ==> !#[trigger] doi_hit(items, j, dn));
            } else {
                lemma_doi_lookup_empty(items);
                assert(dn =~= Seq::<char>::empty());
            }
        },
        None => {},
    }
}

/// How a related paper is matched to the library, stated over the items:
/// - when its (non-empty) normalized DOI is some item's normalized DOI, it
///   is matched to the first such item;
/// - otherwise (no DOI, or a DOI no item has), when its (non-empty)
///   normalized title is some item's normalized title, it is matched to
///   the first such item, whether or not the paper carries a DOI;
/// - otherwise it is not matched.
pub proof fn law_library_match_doi_then_title(items: Seq<Item>, doi: Option<Seq<char>>, title: Seq<char>)
    ensures
        forall|k: int|
            0 <= k < items.len() && doi is Some && normalize_doi_spec(doi->0).len() > 0
                && #[trigger] doi_hit(items, k, normalize_doi_spec(doi->0))
                && (forall|j: int| 0 <= j < k ==> !#[trigger] doi_hit(items, j, normalize_doi_spec(doi->0)))
                ==> library_match(items, doi, title) == Some(items[k].key@),
        forall|k: int|
            0 <= k < items.len() && !doi_found(items, doi) && normalize_title_spec(title).len() > 0
                && #[trigger] title_hit(items, k, normalize_title_spec(title))
                && (forall|j: int| 0 <= j < k ==> !#[trigger] title_hit(items, j, normalize_title_spec(title)))
                ==> library_match(items, doi, title) == Some(items[k].key@),
        !doi_found(items, doi) && (normalize_title_spec(title).len() == 0 || forall|j: int|
            0 <= j < items.len() ==> !#[trigger] title_hit(items, j, normalize_title_spec(title)))
            ==> library_match(items, doi, title) is None,
{
    let tn = normalize_title_spec(title);
    assert forall|k: int|
        0 <= k < items.len() && doi is Some && normalize_doi_spec(doi->0).len() > 0
            && #[trigger] doi_hit(items, k, normalize_doi_spec(doi->0))
            && (forall|j: int| 0 <= j < k ==> !#[trigger] doi_hit(items, j, normalize_doi_spec(doi->0)))
        implies library_match(items, doi, title) == Some(items[k].key@) by {
        lemma_match_by_doi(items, doi->0, title, k);
    }
    if !doi_found(items, doi) {
        lemma_match_no_doi(items, doi, title);
        if tn.len() > 0 {
            lemma_title_lookup(items, tn);
        }
    }
}

proof fn lemma_doi_lookup_empty(items: Seq<Item>)
    ensures
        lookup_first(doi_index(items), Seq::<char>::empty()) is None,
    decreases items.len(),
{
    if items.len() > 0 {
        let d = items.drop_last();
        lemma_doi_lookup_empty(d);
        let it = items.last();
        match it.doi {
            Some(e) => if normalize_doi_spec(e@).len() > 0 {
                lemma_lookup_push(doi_index(d), (normalize_doi_spec(e@), it.key@), Seq::<char>::empty());
            },
            None => {},
        }
    }
}

/// Whether `after` is `before` with every paper's library key recomputed.
pub open spec fn matched_papers(before: Seq<RelatedPaper>, after: Seq<RelatedPaper>, items: Seq<Item>) -> bool {
    &&& after.len() == before.len()
    &&& forall|i: int|
        0 <= i < before.len() ==> {
            &&& (#[trigger] after[i]).title == before[i].title
            &&& after[i].doi == before[i].doi
            &&& after[i].year == before[i].year
            &&& after[i].cited_by_count == before[i].cited_by_count
            &&& opt_view(after[i].in_library_key) == library_match(items, opt_view(before[i].doi), before[i].title@)
        }
}

spec fn index_view(v: Seq<(String, String)>) -> NameIndex {
    Seq::new(v.len(), |i: int| (v[i].0@, v[i].1@))
}

fn build_doi_index(items: &Vec<Item>) -> (r: Vec<(String, String)>)
    ensures
        index_view(r@) == doi_index(items@),
{
    let mut r: Vec<(String, String)> = Vec::new();
    let mut i: usize = 0;
    while i < items.len()
        invariant
            i <= items.len(),
            index_view(r@) == doi_index(items@.take(i as int)),
        decreases items.len() - i,
    {
        proof {
            assert(items@.take(i + 1).drop_last() =~= items@.take(i as int));
        }
        match &items[i].doi {
            Some(d) => {
                let n = normalize_doi(d.as_str());
                if !n.as_str().is_empty() {
                    let ghost before = r@;
                    r.push((n, items[i].key.clone()));
                    proof {
                        assert(index_view(r@) =~= index_view(before).push((n@, items@[i as int].key@)));
                    }
                }
            },
            None => {},
        }
        i += 1;
    }
    assert(items@.take(items.len() as int) =~= items@);
    r
}

fn build_title_index(items: &Vec<Item>) -> (r: Vec<(String, String)>)
    ensures
        index_view(r@) == title_index(items@),
{
    let mut r: Vec<(String, String)> = Vec::new();
    let mut i: usize = 0;
    while i < items.len()
        invariant
            i <= items.len(),
            index_view(r@) == title_index(items@.take(i as int)),
        decreases items.len() - i,
    {
        proof {
            assert(items@.take(i + 1).drop_last() =~= items@.take(i as int));
        }
        let t = normalize_title(items[i].title.as_str());
        if !t.as_str().is_empty() {
            let ghost before = r@;
            r.push((t, items[i].key.clone()));
            proof {
                assert(index_view(r@) =~= index_view(before).push((t@, items@[i as int].key@)));
            }
        }
        i += 1;
    }
    assert(items@.take(items.len() as int) =~= items@);
    r
}

fn lookup_first_exec(idx: &Vec<(String, String)>, n: &String) -> (r: Option<String>)
    ensures
        opt_view(r) == lookup_first(index_view(idx@), n@),
{
    let mut i: usize = 0;
    assert(index_view(idx@).skip(0) =~= index_view(idx@));
    while i < idx.len()
        invariant
            i <= idx.len(),
            lookup_first(index_view(idx@), n@) == lookup_first(index_view(idx@).skip(i as int), n@),
        decreases idx.len() - i,
    {
        proof {
            assert(index_view(idx@).skip(i as int)[0] == (idx@[i as int].0@, idx@[i as int].1@));
            assert(index_view(idx@).skip(i as int).drop_first() =~= index_view(idx@).skip(i + 1));
        }
        if idx[i].0 == *n {
            return Some(idx[i].1.clone());
        }
        i += 1;
    }
    None
}

fn match_one(doi_idx: &Vec<(String, String)>, title_idx: &Vec<(String, String)>, p: &RelatedPaper) -> (r: Option<String>)
    ensures
        opt_view(r) == ({
            let by_doi = match opt_view(p.doi) {
                Some(d) => lookup_first(index_view(doi_idx@), normalize_doi_spec(d)),
                None => None,
            };
            if by_doi is Some {
                by_doi
            } else if normalize_title_spec(p.title@).len() == 0 {
                None
            } else {
                lookup_first(index_view(title_idx@), normalize_title_spec(p.title@))
            }
        }),
{
    match &p.doi {
        Some(d) => {
            let n = normalize_doi(d.as_str());
            match lookup_first_exec(doi_idx, &n) {
                Some(k) => {
                    return Some(k);
                },
                None => {},
            }
        },
        None => {},
    }
    let t = normalize_title(p.title.as_str());
    if t.as_str().is_empty() {
        return None;
    }
    lookup_first_exec(title_idx, &t)
}

fn match_papers(papers: &mut Vec<RelatedPaper>, doi_idx: &Vec<(String, String)>, title_idx: &Vec<(String, String)>, items: Ghost<Seq<Item>>)
    requires
        index_view(doi_idx@) == doi_index(items@),
        index_view(title_idx@) == title_index(items@),
    ensures
        matched_papers(old(papers)@, final(papers)@, items@),
{
    let ghost before = papers@;
    let mut i: usize = 0;
    while i < papers.len()
        invariant
            i <= papers.len(),
            papers@.len() == before.len(),
            index_view(doi_idx@) == doi_index(items@),
            index_view(title_idx@) == title_index(items@),
            forall|k: int| i <= k < papers@.len() ==> #[trigger] papers@[k] == before[k],
            forall|k: int|
                0 <= k < i ==> {
                    &&& (#[trigger] papers@[k]).title == before[k].title
                    &&& papers@[k].doi == before[k].doi
                    &&& papers@[k].year == before[k].year
                    &&& papers@[k].cited_by_count == before[k].cited_by_count
                    &&& opt_view(papers@[k].in_library_key) == library_match(items@, opt_view(before[k].doi), before[k].title@)
                },
        decreases papers.len() - i,
    {
        let key = match_one(doi_idx, title_idx, &papers[i]);
        papers[i].in_library_key = key;
        i += 1;
    }
}

/// Tag every reference/citation with the library item it matches (by
/// normalized DOI first, then normalized title). Recomputed live so a paper
/// the user just added shows up as in-library on the next view.
pub fn apply_library_match(graph: &mut CitationGraph, library: &Library)
    ensures
        final(graph).cited_by_count == old(graph).cited_by_count,
        final(graph).fetch_failed == old(graph).fetch_failed,
        matched_papers(old(graph).references@, final(graph).references@, library.items@),
        matched_papers(old(graph).citations@, final(graph).citations@, library.items@),
{
    let doi_idx = build_doi_index(&library.items);
    let title_idx = build_title_index(&library.items);
    match_papers(&mut graph.references, &doi_idx, &title_idx, Ghost(library.items@));
    match_papers(&mut graph.citations, &doi_idx, &title_idx, Ghost(library.items@));
}


// --- OpenAlex records and queries ---------------------------------------

/// The fields of one OpenAlex work record the graph uses (`None` for an
/// absent or mistyped field).
#[derive(Debug, Clone, PartialEq)]
pub struct WorkRecord {
    pub title: Option<String>,
    pub doi: Option<String>,
    pub publication_year: Option<i64>,
    pub cited_by_count: Option<i64>,
}

/// The related paper a work record describes, or `None` when it has no
/// non-blank title.
pub open spec fn parse_related_spec(w: WorkRecord) -> Option<(Seq<char>, Option<Seq<char>>, Option<i32>, i64)> {
    match w.title {
        None => None,
        Some(t) => if trim(t@).len() == 0 {
            None
        } else {
            Some(
                (
                    trim(t@),
                    match w.doi {
                        Some(d) => if normalize_doi_spec(d@).len() > 0 {
                            Some(normalize_doi_spec(d@))
                        } else {
                            None
                        },
                        None => None,
                    },
                    match w.publication_year {
                        Some(y) => Some(y as i32),
                        None => None,
                    },
                    match w.cited_by_count {
                        Some(c) => c,
                        None => 0,
                    },
                ),
            )
        },
    }
}

/// A work record as a related paper (not yet matched against the library).
pub fn parse_related(w: &WorkRecord) -> (r: Option<RelatedPaper>)
    ensures
        match parse_related_spec(*w) {
            None => r is None,
            Some((t, d, y, c)) => r matches Some(p) && p.title@ == t && opt_view(p.doi) == d
                && p.year == y && p.cited_by_count == c && p.in_library_key is None,
        },
{
    let title = match &w.title {
        Some(t) => trim_str(t.as_str()),
        None => {
            return None;
        },
    };
    if title.as_str().is_empty() {
        return None;
    }
    let doi = match &w.doi {
        Some(d) => {
            let n = normalize_doi(d.as_str());
            if n.as_str().is_empty() {
                None
            } else {
                Some(n)
            }
        },
        None => None,
    };
    let year = match w.publication_year {
        Some(y) => Some(y as i32),
        None => None,
    };
    let cited_by_count = match w.cited_by_count {
        Some(c) => c,
        None => 0,
    };
    Some(RelatedPaper { title, doi, year, cited_by_count, in_library_key: None })
}

/// The DOI a graph is fetched for, or `None` when it normalizes to nothing.
pub fn graph_doi(doi: &str) -> (r: Option<String>)
    ensures
        normalize_doi_spec(doi@).len() == 0 ==> r is None,
        normalize_doi_spec(doi@).len() > 0 ==> (r matches Some(d) && d@ == normalize_doi_spec(doi@)),
{
    let d = normalize_doi(doi);
    if d.as_str().is_empty() {
        None
    } else {
        Some(d)
    }
}

/// URL of the work lookup: `{base}/works/https://doi.org/{doi}?select=id,cited_by_count,referenced_works`.
pub fn work_url(base: &str, doi: &str) -> (r: String)
    ensures
        r@ == base@ + "/works/https://doi.org/"@ + percent_encode(vstd::utf8::encode_utf8(doi@), true)
            + "?select=id,cited_by_count,referenced_works"@,
{
    let mut s = concat(base, "/works/https://doi.org/");
    let enc = url_encode_path(doi);
    push_str(&mut s, enc.as_str());
    push_str(&mut s, "?select=id,cited_by_count,referenced_works");
    s
}

/// URL of the batched works query: `{base}/works`.
pub fn works_url(base: &str) -> (r: String)
    ensures
        r@ == base@ + "/works"@,
{
    concat(base, "/works")
}

/// Short ids of the referenced works: each id's last path segment, blank
/// ones dropped, at most [`MAX_REFERENCES`].
pub open spec fn reference_ids_spec(raw: Seq<Seq<char>>) -> Seq<Seq<char>>
    decreases raw.len(),
{
    if raw.len() == 0 {
        seq![]
    } else {
        let r = reference_ids_spec(raw.drop_last());
        let s = trim(after_last_slash(raw.last()));
        if s.len() == 0 || r.len() >= MAX_REFERENCES {
            r
        } else {
            r.push(s)
        }
    }
}

/// The referenced works to expand.
pub fn reference_ids(raw: &Vec<String>) -> (r: Vec<String>)
    ensures
        views(r@) == reference_ids_spec(views(raw@)),
{
    let ghost rv = views(raw@);
    let mut r: Vec<String> = Vec::new();
    let mut i: usize = 0;
    while i < raw.len()
        invariant
            i <= raw.len(),
            rv == views(raw@),
            views(r@) == reference_ids_spec(rv.take(i as int)),
        decreases raw.len() - i,
    {
        proof {
            assert(rv.take(i + 1).drop_last() =~= rv.take(i as int));
        }
        let s = short_id(raw[i].as_str());
        if !s.as_str().is_empty() && r.len() < MAX_REFERENCES {
            let ghost before = r@;
            r.push(s);
            proof {
                assert(views(r@) =~= views(before).push(s@));
            }
        }
        i += 1;
    }
    assert(rv.take(raw.len() as int) =~= rv);
    r
}

/// `parts` joined by `sep`.
pub open spec fn join(parts: Seq<Seq<char>>, sep: Seq<char>) -> Seq<char>
    decreases parts.len(),
{
    if parts.len() == 0 {
        seq![]
    } else if parts.len() == 1 {
        parts[0]
    } else {
        join(parts.drop_last(), sep) + sep + parts.last()
    }
}

/// Joins strings with a separator (`[String]::join`).
pub fn join_strings(parts: &[String], sep: &str) -> (r: String)
    ensures
        r@ == join(views(parts@), sep@),
{
    let ghost pv = views(parts@);
    let mut s = String::new();
    let mut i: usize = 0;
    while i < parts.len()
        invariant
            i <= parts.len(),
            pv == views(parts@),
            s@ == join(pv.take(i as int), sep@),
        decreases parts.len() - i,
    {
        proof {
            assert(pv.take(i + 1).drop_last() =~= pv.take(i as int));
        }
        if i > 0 {
            push_str(&mut s, sep);
        } else {
            assert(s@ =~= Seq::<char>::empty());
        }
        push_str(&mut s, parts[i].as_str());
        proof {
            if i == 0 {
                assert(s@ =~= pv.take(1)[0]);
            }
        }
        i += 1;
    }
    assert(pv.take(parts.len() as int) =~= pv);
    s
}

/// The `filter` values of the reference expansion: ids in chunks of
/// [`ID_CHUNK`], each `openalex:` followed by the chunk joined with `|`.
pub open spec fn reference_filters_spec(ids: Seq<Seq<char>>) -> Seq<Seq<char>>
    decreases ids.len(),
{
    if ids.len() == 0 {
        seq![]
    } else if ids.len() <= ID_CHUNK {
        seq!["openalex:"@ + join(ids, "|"@)]
    } else {
        seq!["openalex:"@ + join(ids.take(ID_CHUNK as int), "|"@)] + reference_filters_spec(ids.skip(ID_CHUNK as int))
    }
}

/// Builds the batched reference queries.
pub fn reference_filters(ids: &Vec<String>) -> (r: Vec<String>)
    ensures
        views(r@) == reference_filters_spec(views(ids@)),
{
    let ghost iv = views(ids@);
    let mut r: Vec<String> = Vec::new();
    let mut start: usize = 0;
    assert(iv.skip(0) =~= iv);
    assert(views(r@) + reference_filters_spec(iv) =~= reference_filters_spec(iv));
    while start < ids.len()
        invariant
            start <= ids.len(),
            iv == views(ids@),
            reference_filters_spec(iv) == views(r@) + reference_filters_spec(iv.skip(start as int)),
        decreases ids.len() - start,
    {
        let end = if ids.len() - start <= ID_CHUNK {
            ids.len()
        } else {
            start + ID_CHUNK
        };
        let chunk = ids.as_slice().split_at(end).0.split_at(start).1;
        proof {
            assert(views(chunk@) =~= iv.skip(start as int).take((end - start) as int));
        }
        let joined = join_strings(chunk, "|");
        let f = concat("openalex:", joined.as_str());
        let ghost before = r@;
        r.push(f);
        proof {
            let rest = iv.skip(start as int);
            if ids.len() - start <= ID_CHUNK {
                assert(rest.take((end - start) as int) =~= rest);
                assert(iv.skip(end as int) =~= Seq::<Seq<char>>::empty());
                assert(reference_filters_spec(iv.skip(end as int)) =~= Seq::<Seq<char>>::empty());
                assert(seq![f@] + Seq::<Seq<char>>::empty() =~= seq![f@]);
            } else {
                assert(rest.skip(ID_CHUNK as int) =~= iv.skip(end as int));
            }
            assert(views(r@) =~= views(before).push(f@));
            assert(views(before) + (seq![f@] + reference_filters_spec(iv.skip(end as int))) =~= views(r@) + reference_filters_spec(iv.skip(end as int)));
        }
        start = end;
    }
    assert(iv.skip(ids.len() as int) =~= Seq::<Seq<char>>::empty());
    assert(views(r@) + Seq::<Seq<char>>::empty() =~= views(r@));
    assert(iv.skip(0) =~= iv);
    r
}

/// The `filter` value of the citing-works query (`cites:{id}`), or `None`
/// when the work has no id.
pub fn citing_filter(work_id: &str) -> (r: Option<String>)
    ensures
        work_id@.len() == 0 ==> r is None,
        work_id@.len() > 0 ==> (r matches Some(f) && f@ == "cites:"@ + work_id@),
{
    if work_id.is_empty() {
        None
    } else {
        Some(concat("cites:", work_id))
    }
}


/// `x` placed after every entry cited at least as often (stable).
pub open spec fn insert_by_citations(s: Seq<RelatedPaper>, x: RelatedPaper) -> Seq<RelatedPaper>
    decreases s.len(),
{
    if s.len() == 0 {
        seq![x]
    } else if x.cited_by_count > s[0].cited_by_count {
        seq![x] + s
    } else {
        seq![s[0]] + insert_by_citations(s.drop_first(), x)
    }
}

/// `s` stably sorted by citation count, most cited first.
pub open spec fn by_citations(s: Seq<RelatedPaper>) -> Seq<RelatedPaper>
    decreases s.len(),
{
    if s.len() == 0 {
        seq![]
    } else {
        insert_by_citations(by_citations(s.drop_last()), s.last())
    }
}

proof fn lemma_insert_by_citations_at(s: Seq<RelatedPaper>, x: RelatedPaper, p: int)
    requires
        0 <= p <= s.len(),
        forall|k: int| 0 <= k < p ==> !(x.cited_by_count > (#[trigger] s[k]).cited_by_count),
        p < s.len() ==> x.cited_by_count > s[p].cited_by_count,
    ensures
        insert_by_citations(s, x) == s.take(p) + seq![x] + s.skip(p),
    decreases p,
{
    if p == 0 {
        assert(s.skip(0) =~= s);
        assert(s.take(0) + seq![x] + s.skip(0) =~= seq![x] + s);
    } else {
        lemma_insert_by_citations_at(s.drop_first(), x, p - 1);
        assert(seq![s[0]] + (s.drop_first().take(p - 1) + seq![x] + s.drop_first().skip(p - 1))
            =~= s.take(p) + seq![x] + s.skip(p));
    }
}

/// Stable sort by citation count, most cited first.
pub fn sort_by_citations(papers: Vec<RelatedPaper>) -> (r: Vec<RelatedPaper>)
    ensures
        r@ == by_citations(papers@),
{
    let ghost orig = papers@;
    let mut rest = papers;
    let mut out: Vec<RelatedPaper> = Vec::new();
    while rest.len() > 0
        invariant
            rest@ == orig.skip(orig.len() - rest.len()),
            rest.len() <= orig.len(),
            out@ == by_citations(orig.take(orig.len() - rest.len())),
        decreases rest.len(),
    {
        let ghost n = orig.len() - rest.len();
        let ghost old_rest = rest@;
        let x = rest.remove(0);
        let mut p: usize = 0;
        while p < out.len() && !(x.cited_by_count > out[p].cited_by_count)
            invariant
                p <= out.len(),
                forall|k: int| 0 <= k < p ==> !(x.cited_by_count > (#[trigger] out@[k]).cited_by_count),
            decreases out.len() - p,
        {
            p += 1;
        }
        proof {
            lemma_insert_by_citations_at(out@, x, p as int);
            assert(orig.take(n + 1).drop_last() =~= orig.take(n));
            assert(old_rest[0] == orig.skip(n)[0]);
            assert(rest@ =~= orig.skip(n + 1));
        }
        let ghost before = out@;
        out.insert(p, x);
        proof {
            assert(out@ =~= before.take(p as int) + seq![x] + before.skip(p as int));
        }
    }
    assert(orig.take(orig.len() as int) =~= orig);
    out
}

/// The graph of a fetched work: its references sorted by citation count,
/// its citing works as returned, not yet matched against the library.
pub fn assemble_graph(cited_by_count: i64, references: Vec<RelatedPaper>, citations: Vec<RelatedPaper>) -> (g: CitationGraph)
    ensures
        g.references@ == by_citations(references@),
        g.citations@ == citations@,
        g.cited_by_count == cited_by_count,
        !g.fetch_failed,
{
    CitationGraph {
        references: sort_by_citations(references),
        citations,
        cited_by_count,
        fetch_failed: false,
    }
}

/// Fields requested of each related work.
pub const SELECT: &'static str = "id,doi,title,publication_year,cited_by_count";


/// Query parameters of one batch of the reference expansion.
pub fn reference_query(filter: &str) -> (q: Vec<(String, String)>)
    ensures
        crate::models::pair_views(q@) == seq![("filter"@, filter@), ("per-page"@, "50"@), ("select"@, SELECT@)],
{
    let mut q: Vec<(String, String)> = Vec::new();
    q.push(("filter".to_owned(), filter.to_owned()));
    q.push(("per-page".to_owned(), "50".to_owned()));
    q.push(("select".to_owned(), SELECT.to_owned()));
    assert(crate::models::pair_views(q@) =~= seq![("filter"@, filter@), ("per-page"@, "50"@), ("select"@, SELECT@)]);
    q
}

/// Query parameters of the citing-works request: the most cited first, at
/// most [`MAX_CITATIONS`] of them.
pub fn citing_query(filter: &str) -> (q: Vec<(String, String)>)
    ensures
        crate::models::pair_views(q@) == seq![
            ("filter"@, filter@),
            ("per-page"@, crate::text::decimal_spec(MAX_CITATIONS as nat)),
            ("sort"@, "cited_by_count:desc"@),
            ("select"@, SELECT@),
        ],
{
    let mut q: Vec<(String, String)> = Vec::new();
    q.push(("filter".to_owned(), filter.to_owned()));
    q.push(("per-page".to_owned(), crate::text::decimal(MAX_CITATIONS as u64)));
    q.push(("sort".to_owned(), "cited_by_count:desc".to_owned()));
    q.push(("select".to_owned(), SELECT.to_owned()));
    assert(crate::models::pair_views(q@) =~= seq![
        ("filter"@, filter@),
        ("per-page"@, crate::text::decimal_spec(MAX_CITATIONS as nat)),
        ("sort"@, "cited_by_count:desc"@),
        ("select"@, SELECT@),
    ]);
    q
}

/// Citation counts never increase along `s`.
pub open spec fn most_cited_first(s: Seq<RelatedPaper>) -> bool {
    forall|i: int, j: int| 0 <= i < j < s.len() ==> (#[trigger] s[i]).cited_by_count >= (#[trigger] s[j]).cited_by_count
}

proof fn lemma_insert_by_citations_keeps(s: Seq<RelatedPaper>, x: RelatedPaper)
    requires
        most_cited_first(s),
    ensures
        most_cited_first(insert_by_citations(s, x)),
        insert_by_citations(s, x).to_multiset() == s.to_multiset().insert(x),
        insert_by_citations(s, x).len() == s.len() + 1,
    decreases s.len(),
{
    broadcast use vstd::seq_lib::group_to_multiset_ensures;
    if s.len() == 0 {
        assert(seq![x] =~= s.insert(0, x));
    } else if x.cited_by_count > s[0].cited_by_count {
        assert(seq![x] + s =~= s.insert(0, x));
    } else {
        let t = s.drop_first();
        assert(most_cited_first(t)) by {
            assert forall|i: int, j: int| 0 <= i < j < t.len() implies (#[trigger] t[i]).cited_by_count
                >= (#[trigger] t[j]).cited_by_count by {
                assert(t[i] == s[i + 1] && t[j] == s[j + 1]);
            }
        }
        lemma_insert_by_citations_keeps(t, x);
        let u = insert_by_citations(t, x);
        let r = seq![s[0]] + u;
        assert(r =~= u.insert(0, s[0]));
        assert(s =~= t.insert(0, s[0]));
        assert(r.to_multiset() =~= s.to_multiset().insert(x));
        assert forall|i: int, j: int| 0 <= i < j < r.len() implies (#[trigger] r[i]).cited_by_count
            >= (#[trigger] r[j]).cited_by_count by {
            if i > 0 {
                assert(r[i] == u[i - 1] && r[j] == u[j - 1]);
            } else {
                assert(r[j] == u[j - 1]);
                assert(u.to_multiset().count(u[j - 1]) > 0);
                assert(s.to_multiset().insert(x).count(u[j - 1]) > 0);
                if u[j - 1] != x {
                    assert(s.to_multiset().count(u[j - 1]) > 0);
                    let k = choose|k: int| 0 <= k < s.len() && s[k] == u[j - 1];
                    if k > 0 {
                        assert(s[0].cited_by_count >= s[k].cited_by_count);
                    }
                }
            }
        }
    }
}

/// The references of a graph come most cited first, and are exactly the
/// papers fetched (the same multiset).
pub proof fn law_references_most_cited_first(s: Seq<RelatedPaper>)
    ensures
        most_cited_first(by_citations(s)),
        by_citations(s).to_multiset() == s.to_multiset(),
    decreases s.len(),
{
    broadcast use vstd::seq_lib::group_to_multiset_ensures;
    if s.len() == 0 {
        assert(by_citations(s).to_multiset() =~= s.to_multiset());
    } else {
        law_references_most_cited_first(s.drop_last());
        lemma_insert_by_citations_keeps(by_citations(s.drop_last()), s.last());
        assert(s =~= s.drop_last().push(s.last()));
    }
}
} // verus!
