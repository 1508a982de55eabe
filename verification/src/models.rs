//! Shared data model: the library snapshot served by Zotero, and the
//! records the classify/summarize/citation pipelines produce.

use vstd::prelude::*;

verus! {

/// Views of a sequence of strings, as character sequences.
pub open spec fn views(v: Seq<String>) -> Seq<Seq<char>> {
    Seq::new(v.len(), |i: int| v[i]@)
}

/// View of an optional string.
pub open spec fn opt_view(o: Option<String>) -> Option<Seq<char>> {
    match o {
        Some(s) => Some(s@),
        None => None,
    }
}

/// Views of a sequence of string pairs.
pub open spec fn pair_views(v: Seq<(String, String)>) -> Seq<(Seq<char>, Seq<char>)> {
    Seq::new(v.len(), |i: int| (v[i].0@, v[i].1@))
}

/// Views of a sequence of string sequences.
pub open spec fn path_views(v: Seq<Vec<String>>) -> Seq<Seq<Seq<char>>> {
    Seq::new(v.len(), |i: int| views(v[i]@))
}

/// Connection state of the local Zotero instance, polled by the app.
#[derive(Debug, Clone, PartialEq)]
pub struct ZoteroStatus {
    /// Something is listening on the Zotero port.
    pub running: bool,
    /// The companion plugin answered `/zotero-notebook/ping`.
    pub plugin_installed: bool,
    pub plugin_version: Option<String>,
    /// Human-readable hint when degraded.
    pub hint: Option<String>,
}

/// A Zotero collection; `parent_key` is `None` for top-level collections.
#[derive(Debug, Clone, PartialEq)]
pub struct Collection {
    pub key: String,
    pub name: String,
    pub parent_key: Option<String>,
}

/// How the attachment file is stored in Zotero.
#[derive(Debug, Clone, Copy, PartialEq, Eq, Structural)]
pub enum LinkMode {
    /// File lives in Zotero's own storage directory.
    ImportedFile,
    ImportedUrl,
    /// File lives outside Zotero; the item stores a path.
    LinkedFile,
    LinkedUrl,
    Other,
}

/// The primary PDF attachment of an item.
#[derive(Debug, Clone, PartialEq)]
pub struct Attachment {
    pub key: String,
    pub title: String,
    pub filename: Option<String>,
    pub content_type: Option<String>,
    pub link_mode: LinkMode,
    /// Absolute path on disk, already resolved; `None` when missing or unresolvable.
    pub file_path: Option<String>,
}

/// A regular (top-level) Zotero item.
#[derive(Debug, Clone, PartialEq)]
pub struct Item {
    pub key: String,
    pub title: String,
    pub item_type: String,
    /// Display names, first author first.
    pub creators: Vec<String>,
    pub year: Option<i32>,
    /// Journal / conference / publisher, whichever the item type carries.
    pub publication: Option<String>,
    pub doi: Option<String>,
    pub url: Option<String>,
    pub abstract_text: Option<String>,
    pub tags: Vec<String>,
    pub date_added: Option<String>,
    /// Keys of every collection this item belongs to (empty = unfiled).
    pub collection_keys: Vec<String>,
    /// The primary PDF attachment, if any.
    pub attachment: Option<Attachment>,
}

/// One snapshot of the whole library.
#[derive(Debug, Clone, PartialEq)]
pub struct Library {
    pub collections: Vec<Collection>,
    pub items: Vec<Item>,
    /// True when served by the plugin (write operations available).
    pub writable: bool,
}

/// Name of the collection that holds not-yet-classified papers.
pub const UNCLASSIFIED_COLLECTION: &'static str = "Unclassified";

/// Most collections a path lookup visits before it gives up (cycle guard).
pub const MAX_PATH_LOOKUPS: usize = 64;

/// Index of the first collection whose key is `k`.
#[verifier::opaque]
pub open spec fn find_collection(cols: Seq<Collection>, k: Seq<char>) -> Option<int> {
    if exists|i: int| 0 <= i < cols.len() && cols[i].key@ == k {
        let i = choose|i: int|
            0 <= i < cols.len() && cols[i].key@ == k && forall|j: int|
                0 <= j < i ==> cols[j].key@ != k;
        Some(i)
    } else {
        None
    }
}

/// The nested path (root first) of the collection keyed `k`, following
/// parent keys through at most `fuel` lookups; `None` when a key is unknown
/// or the chain is longer than `fuel`.
#[verifier::opaque]
pub open spec fn collection_path_spec(cols: Seq<Collection>, k: Seq<char>, fuel: nat) -> Option<
    Seq<Seq<char>>,
>
    decreases fuel,
{
    if fuel == 0 {
        None
    } else {
        match find_collection(cols, k) {
            None => None,
            Some(i) => match cols[i].parent_key {
                None => Some(seq![cols[i].name@]),
                Some(p) => match collection_path_spec(cols, p@, (fuel - 1) as nat) {
                    Some(r) => Some(r.push(cols[i].name@)),
                    None => None,
                },
            },
        }
    }
}

/// `Option` of a path of strings, viewed.
pub open spec fn opt_path_view(o: Option<Vec<String>>) -> Option<Seq<Seq<char>>> {
    match o {
        Some(v) => Some(views(v@)),
        None => None,
    }
}

proof fn lemma_find_first(cols: Seq<Collection>, k: Seq<char>, i: int)
    requires
        0 <= i < cols.len(),
        cols[i].key@ == k,
        forall|j: int| 0 <= j < i ==> cols[j].key@ != k,
    ensures
        find_collection(cols, k) == Some(i),
{
    reveal(find_collection);
    let c = choose|c: int|
        0 <= c < cols.len() && cols[c].key@ == k && forall|j: int| 0 <= j < c ==> cols[j].key@ != k;
    if c < i {
    } else if c > i {
        assert(cols[i].key@ != k);
    }
}

/// The index of the first collection keyed `k`.
fn find_collection_exec(cols: &Vec<Collection>, k: &String) -> (r: Option<usize>)
    ensures
        match r {
            Some(i) => find_collection(cols@, k@) == Some(i as int) && i < cols.len(),
            None => find_collection(cols@, k@) is None,
        },
{
    let mut i: usize = 0;
    while i < cols.len()
        invariant
            i <= cols.len(),
            forall|j: int| 0 <= j < i ==> cols@[j].key@ != k@,
        decreases cols.len() - i,
    {
        if cols[i].key == *k {
            proof {
                lemma_find_first(cols@, k@, i as int);
            }
            return Some(i);
        }
        i += 1;
    }
    proof {
        reveal(find_collection);
    }
    None
}

/// Clones a vector of strings.
pub fn clone_strings(v: &Vec<String>) -> (r: Vec<String>)
    ensures
        r@ == v@,
{
    let mut r: Vec<String> = Vec::new();
    let mut i: usize = 0;
    while i < v.len()
        invariant
            i <= v.len(),
            r@ == v@.take(i as int),
        decreases v.len() - i,
    {
        r.push(v[i].clone());
        i += 1;
    }
    assert(v@.take(v.len() as int) =~= v@);
    r
}

/// Clones an optional string.
pub fn clone_opt(o: &Option<String>) -> (r: Option<String>)
    ensures
        r == *o,
{
    match o {
        Some(s) => Some(s.clone()),
        None => None,
    }
}

/// Appends `suffix` to a found path.
pub open spec fn extend_path(o: Option<Seq<Seq<char>>>, suffix: Seq<Seq<char>>) -> Option<
    Seq<Seq<char>>,
> {
    match o {
        Some(p) => Some(p + suffix),
        None => None,
    }
}

proof fn lemma_path_step(cols: Seq<Collection>, k: Seq<char>, f: nat, i: int, suffix: Seq<Seq<char>>)
    requires
        f > 0,
        find_collection(cols, k) == Some(i),
        0 <= i < cols.len(),
    ensures
        extend_path(collection_path_spec(cols, k, f), suffix) == match cols[i].parent_key {
            None => Some(seq![cols[i].name@] + suffix),
            Some(p) => extend_path(
                collection_path_spec(cols, p@, (f - 1) as nat),
                seq![cols[i].name@] + suffix,
            ),
        },
{
    reveal(collection_path_spec);
    match cols[i].parent_key {
        None => {},
        Some(p) => {
            match collection_path_spec(cols, p@, (f - 1) as nat) {
                Some(r) => {
                    assert(r.push(cols[i].name@) + suffix =~= r + (seq![cols[i].name@] + suffix));
                },
                None => {},
            }
        },
    }
}

proof fn lemma_path_none(cols: Seq<Collection>, k: Seq<char>, f: nat)
    requires
        f == 0 || find_collection(cols, k) is None,
    ensures
        collection_path_spec(cols, k, f) is None,
{
    reveal(collection_path_spec);
}

/// Every collection's path, in collection order, skipping collections whose
/// path does not resolve.
pub open spec fn all_paths_spec(cols: Seq<Collection>, n: int) -> Seq<Seq<Seq<char>>>
    decreases n,
{
    if n <= 0 {
        seq![]
    } else {
        let r = all_paths_spec(cols, n - 1);
        match collection_path_spec(cols, cols[n - 1].key@, MAX_PATH_LOOKUPS as nat) {
            Some(p) => r.push(p),
            None => r,
        }
    }
}

impl Library {
    /// Every collection as a nested path, for the classifier prompt.
    pub fn all_paths(&self) -> (r: Vec<Vec<String>>)
        ensures
            path_views(r@) == all_paths_spec(self.collections@, self.collections@.len() as int),
    {
        let mut r: Vec<Vec<String>> = Vec::new();
        let mut i: usize = 0;
        while i < self.collections.len()
            invariant
                i <= self.collections.len(),
                path_views(r@) == all_paths_spec(self.collections@, i as int),
            decreases self.collections.len() - i,
        {
            let ghost before = r@;
            match self.collection_path(self.collections[i].key.as_str()) {
                Some(p) => {
                    r.push(p);
                    proof {
                        assert(path_views(r@) =~= path_views(before).push(views(p@)));
                    }
                },
                None => {},
            }
            i += 1;
        }
        r
    }

    /// Nested path (root → leaf) for a collection key, e.g.
    /// `["Computer Vision", "Diffusion Models"]`.
    pub fn collection_path(&self, key: &str) -> (r: Option<Vec<String>>)
        ensures
            opt_path_view(r) == collection_path_spec(self.collections@, key@, MAX_PATH_LOOKUPS as nat),
    {
        let ghost target = collection_path_spec(self.collections@, key@, MAX_PATH_LOOKUPS as nat);
        let mut path: Vec<String> = Vec::new();
        let mut cursor: Option<String> = Some(key.to_owned());
        let mut guard: usize = 0;
        assert(views(path@) =~= Seq::<Seq<char>>::empty());
        assert(extend_path(target, Seq::<Seq<char>>::empty()) == target) by {
            match target {
                Some(p) => {
                    assert(p + Seq::<Seq<char>>::empty() =~= p);
                },
                None => {},
            }
        }
        loop
            invariant
                guard <= MAX_PATH_LOOKUPS,
                target == collection_path_spec(self.collections@, key@, MAX_PATH_LOOKUPS as nat),
                match cursor {
                    Some(c) => target == extend_path(
                        collection_path_spec(self.collections@, c@, (MAX_PATH_LOOKUPS - guard) as nat),
                        views(path@),
                    ),
                    None => target == Some(views(path@)),
                },
            ensures
                target == Some(views(path@)),
            decreases MAX_PATH_LOOKUPS - guard,
        {
            let k = match cursor {
                Some(k) => k,
                None => {
                    break;
                },
            };
            if guard >= MAX_PATH_LOOKUPS {
                proof {
                    lemma_path_none(self.collections@, k@, 0);
                }
                return None;
            }
            let found = find_collection_exec(&self.collections, &k);
            let i = match found {
                Some(i) => i,
                None => {
                    proof {
                        lemma_path_none(self.collections@, k@, (MAX_PATH_LOOKUPS - guard) as nat);
                    }
                    return None;
                },
            };
            let col = &self.collections[i];
            let ghost old_path = path@;
            path.insert(0, col.name.clone());
            proof {
                assert(views(path@) =~= seq![col.name@] + views(old_path));
                lemma_path_step(
                    self.collections@,
                    k@,
                    (MAX_PATH_LOOKUPS - guard) as nat,
                    i as int,
                    views(old_path),
                );
            }
            guard += 1;
            cursor = clone_opt(&col.parent_key);
        }
        Some(path)
    }
}


/// What the model proposes for one unclassified item. Nothing moves until
/// the user approves a [`ClassificationDecision`]. `confidence_bits` holds
/// the IEEE-754 binary64 encoding of a 0.0–1.0 confidence.
#[derive(Debug, Clone, PartialEq)]
pub struct ClassificationProposal {
    pub item_key: String,
    /// Target collection as a nested path (root → leaf).
    pub proposed_path: Vec<String>,
    /// True when the path creates at least one new collection.
    pub is_new_collection: bool,
    pub confidence_bits: u64,
    pub rationale: String,
    /// Model-suggested tags, cleaned and canonicalized.
    pub suggested_tags: Vec<String>,
}

/// A proposal to refile an already-classified item (confidence as above).
#[derive(Debug, Clone, PartialEq)]
pub struct AuditProposal {
    pub item_key: String,
    /// The item's current real filing (nested paths).
    pub current_paths: Vec<Vec<String>>,
    /// Keys of those memberships, which a move would replace.
    pub current_keys: Vec<String>,
    pub proposed_path: Vec<String>,
    pub is_new_collection: bool,
    pub confidence_bits: u64,
    pub rationale: String,
}

/// A user-approved (possibly edited) move.
#[derive(Debug, Clone, PartialEq)]
pub struct ClassificationDecision {
    pub item_key: String,
    pub target_path: Vec<String>,
    /// Extra memberships to drop (the audit flow's current filing).
    pub remove_collection_keys: Vec<String>,
    /// Approved tags to add with the move.
    pub add_tags: Vec<String>,
}

/// Outcome of one move.
#[derive(Debug, Clone, PartialEq)]
pub struct MoveResult {
    pub item_key: String,
    pub ok: bool,
    pub error: Option<String>,
    pub collection_key: Option<String>,
    pub new_file_path: Option<String>,
}

/// One reference or citing work in a citation graph.
#[derive(Debug, Clone, PartialEq)]
pub struct RelatedPaper {
    pub title: String,
    /// Normalized (bare, lower-case) DOI.
    pub doi: Option<String>,
    pub year: Option<i32>,
    pub cited_by_count: i64,
    /// Key of the library item this paper matches, if any.
    pub in_library_key: Option<String>,
}

/// References and citing works of one paper.
#[derive(Debug, Clone, PartialEq)]
pub struct CitationGraph {
    /// Works this paper cites, most cited first.
    pub references: Vec<RelatedPaper>,
    /// Works citing this paper, most cited first.
    pub citations: Vec<RelatedPaper>,
    pub cited_by_count: i64,
    /// Set when the item has no DOI or the lookup failed.
    pub fetch_failed: bool,
}

impl CitationGraph {
    /// The empty graph, marked as a failed fetch.
    pub fn failed() -> (g: CitationGraph)
        ensures
            g.references@.len() == 0,
            g.citations@.len() == 0,
            g.cited_by_count == 0,
            g.fetch_failed,
    {
        CitationGraph { references: Vec::new(), citations: Vec::new(), cited_by_count: 0, fetch_failed: true }
    }
}

/// The LLM providers the app can use.
#[derive(Debug, Clone, Copy, PartialEq, Eq, Structural, Hash)]
pub enum ProviderId {
    Gemini,
    Anthropic,
    /// An OpenAI-compatible server on the user's machine (Ollama, LM Studio, …).
    Local,
}

/// The lower-case name of a provider.
pub open spec fn provider_name(p: ProviderId) -> Seq<char> {
    match p {
        ProviderId::Gemini => "gemini"@,
        ProviderId::Anthropic => "anthropic"@,
        ProviderId::Local => "local"@,
    }
}

impl ProviderId {
    /// The provider's lower-case name (also its wire and storage name).
    pub fn as_str(&self) -> (r: &'static str)
        ensures
            r@ == provider_name(*self),
    {
        match self {
            ProviderId::Gemini => "gemini",
            ProviderId::Anthropic => "anthropic",
            ProviderId::Local => "local",
        }
    }

    /// The provider's name as an owned string (what `Display` prints).
    pub fn to_string(&self) -> (r: String)
        ensures
            r@ == provider_name(*self),
    {
        self.as_str().to_owned()
    }
}

/// What a stored summary was generated from (drives the UI badge).
#[derive(Debug, Clone, Copy, PartialEq, Eq, Structural)]
pub enum SummarySource {
    Abstract,
    Metadata,
    Fulltext,
}

/// The storage name of a summary source.
pub open spec fn source_name(s: SummarySource) -> Seq<char> {
    match s {
        SummarySource::Abstract => "abstract"@,
        SummarySource::Metadata => "metadata"@,
        SummarySource::Fulltext => "fulltext"@,
    }
}

/// Whether the characters `v` spell `lit`.
pub fn chars_eq(v: &Vec<char>, lit: &str) -> (r: bool)
    ensures
        r == (v@ == lit@),
{
    let w = crate::text::chars_of(lit);
    if v.len() != w.len() {
        return false;
    }
    let mut i: usize = 0;
    while i < v.len()
        invariant
            i <= v.len(),
            v.len() == w.len(),
            w@ == lit@,
            forall|k: int| 0 <= k < i ==> v@[k] == w@[k],
        decreases v.len() - i,
    {
        if v[i] != w[i] {
            return false;
        }
        i += 1;
    }
    assert(v@ =~= w@);
    true
}

impl SummarySource {
    /// The storage name.
    pub fn as_str(&self) -> (r: &'static str)
        ensures
            r@ == source_name(*self),
    {
        match self {
            SummarySource::Abstract => "abstract",
            SummarySource::Metadata => "metadata",
            SummarySource::Fulltext => "fulltext",
        }
    }

    /// The source a storage name stands for; `None` for anything else
    /// (rows written before the column existed hold an empty string).
    pub fn parse(s: &str) -> (r: Option<SummarySource>)
        ensures
            match r {
                Some(x) => source_name(x) == s@,
                None => forall|x: SummarySource| source_name(x) != s@,
            },
    {
        let v = crate::text::chars_of(s);
        if chars_eq(&v, "abstract") {
            Some(SummarySource::Abstract)
        } else if chars_eq(&v, "metadata") {
            Some(SummarySource::Metadata)
        } else if chars_eq(&v, "fulltext") {
            Some(SummarySource::Fulltext)
        } else {
            None
        }
    }
}

/// The source of a stored row: its `source` column when that parses, else
/// (rows from before the column) abstract or metadata per the older
/// `had_abstract` flag.
pub fn stored_source(source: &str, had_abstract: bool) -> (r: SummarySource)
    ensures
        (exists|x: SummarySource| source_name(x) == source@) ==> source_name(r) == source@,
        (forall|x: SummarySource| source_name(x) != source@) ==> r == (if had_abstract {
            SummarySource::Abstract
        } else {
            SummarySource::Metadata
        }),
{
    match SummarySource::parse(source) {
        Some(s) => s,
        None => if had_abstract {
            SummarySource::Abstract
        } else {
            SummarySource::Metadata
        },
    }
}

/// A reading-queue status of a paper.
#[derive(Debug, Clone, Copy, PartialEq, Eq, Structural)]
pub enum ReadingStatus {
    ToRead,
    Reading,
    Read,
}

/// The storage name of a reading status.
pub open spec fn status_name(s: ReadingStatus) -> Seq<char> {
    match s {
        ReadingStatus::ToRead => "to_read"@,
        ReadingStatus::Reading => "reading"@,
        ReadingStatus::Read => "read"@,
    }
}

impl ReadingStatus {
    /// The storage name.
    pub fn as_str(&self) -> (r: &'static str)
        ensures
            r@ == status_name(*self),
    {
        match self {
            ReadingStatus::ToRead => "to_read",
            ReadingStatus::Reading => "reading",
            ReadingStatus::Read => "read",
        }
    }

    /// The status a storage name stands for; `None` for an empty or
    /// unrecognized name (the item is only starred or noted).
    pub fn parse(s: &str) -> (r: Option<ReadingStatus>)
        ensures
            match r {
                Some(x) => status_name(x) == s@,
                None => forall|x: ReadingStatus| status_name(x) != s@,
            },
    {
        let v = crate::text::chars_of(s);
        if chars_eq(&v, "to_read") {
            Some(ReadingStatus::ToRead)
        } else if chars_eq(&v, "reading") {
            Some(ReadingStatus::Reading)
        } else if chars_eq(&v, "read") {
            Some(ReadingStatus::Read)
        } else {
            None
        }
    }
}

/// A stored AI summary of one item.
#[derive(Debug, Clone, PartialEq)]
pub struct StoredSummary {
    pub item_key: String,
    pub summary: String,
    pub provider: String,
    pub model: String,
    /// RFC 3339.
    pub created_at: String,
    pub source: SummarySource,
}

/// The app-owned reading state of one item.
#[derive(Debug, Clone, PartialEq)]
pub struct ReadingState {
    pub item_key: String,
    pub status: Option<ReadingStatus>,
    pub starred: bool,
    pub note: String,
    /// RFC 3339.
    pub updated_at: String,
}

/// Who wrote a chat message.
#[derive(Debug, Clone, Copy, PartialEq, Eq, Structural)]
pub enum ChatRole {
    User,
    Assistant,
}

/// One turn of a chat.
#[derive(Debug, Clone, PartialEq)]
pub struct ChatMessage {
    pub role: ChatRole,
    pub content: String,
}

/// User settings.
#[derive(Debug, Clone, PartialEq)]
pub struct AppSettings {
    pub default_provider: ProviderId,
    pub gemini_model: String,
    /// Anthropic model id; empty until the user picks one in Settings.
    pub anthropic_model: String,
    /// Model name on the local OpenAI-compatible server.
    pub local_model: String,
    /// Base URL of the local OpenAI-compatible server.
    pub local_base_url: String,
    /// Base URL of the local Zotero server.
    pub zotero_base_url: String,
    /// Root directory for linked PDF files; approved moves relocate files to
    /// `<file_root>/<collection path>/<filename>`.
    pub file_root: Option<String>,
}

impl Default for AppSettings {
    fn default() -> (s: Self)
        ensures
            s.default_provider == ProviderId::Gemini,
            s.gemini_model@ == "gemini-2.5-pro"@,
            s.anthropic_model@.len() == 0,
            s.local_model@ == "llama3.1:8b"@,
            s.local_base_url@ == "http://127.0.0.1:11434/v1"@,
            s.zotero_base_url@ == "http://127.0.0.1:23119"@,
            s.file_root is None,
    {
        AppSettings {
            default_provider: ProviderId::Gemini,
            gemini_model: "gemini-2.5-pro".to_owned(),
            anthropic_model: String::new(),
            local_model: "llama3.1:8b".to_owned(),
            local_base_url: "http://127.0.0.1:11434/v1".to_owned(),
            zotero_base_url: "http://127.0.0.1:23119".to_owned(),
            file_root: None,
        }
    }
}

/// Progress event payload shared by the classify and apply pipelines.
#[derive(Debug, Clone, PartialEq)]
pub struct ProgressEvent {
    pub done: usize,
    pub total: usize,
    pub item_key: Option<String>,
    /// "running" | "ok" | "error"
    pub state: String,
    pub message: Option<String>,
}

/// `a` and `b` hold the same data (vectors compared by their contents).
pub open spec fn same_item(a: Item, b: Item) -> bool {
    &&& a.key == b.key
    &&& a.title == b.title
    &&& a.item_type == b.item_type
    &&& a.creators@ == b.creators@
    &&& a.year == b.year
    &&& a.publication == b.publication
    &&& a.doi == b.doi
    &&& a.url == b.url
    &&& a.abstract_text == b.abstract_text
    &&& a.tags@ == b.tags@
    &&& a.date_added == b.date_added
    &&& a.collection_keys@ == b.collection_keys@
    &&& a.attachment == b.attachment
}

/// A copy of an item, field by field.
pub fn clone_item(it: &Item) -> (r: Item)
    ensures
        same_item(r, *it),
{
    Item {
        key: it.key.clone(),
        title: it.title.clone(),
        item_type: it.item_type.clone(),
        creators: clone_strings(&it.creators),
        year: it.year,
        publication: clone_opt(&it.publication),
        doi: clone_opt(&it.doi),
        url: clone_opt(&it.url),
        abstract_text: clone_opt(&it.abstract_text),
        tags: clone_strings(&it.tags),
        date_added: clone_opt(&it.date_added),
        collection_keys: clone_strings(&it.collection_keys),
        attachment: match &it.attachment {
            Some(a) => Some(Attachment {
                key: a.key.clone(),
                title: a.title.clone(),
                filename: clone_opt(&a.filename),
                content_type: clone_opt(&a.content_type),
                link_mode: a.link_mode,
                file_path: clone_opt(&a.file_path),
            }),
            None => None,
        },
    }
}

/// What is stored comes back: distinct summary sources and reading
/// statuses have distinct storage names, and no status is stored as the
/// empty name that marks "no status". (With the contracts of `as_str`,
/// `parse` and [`stored_source`], a stored source or status reads back as
/// itself.)
pub proof fn law_storage_names_round_trip()
    ensures
        forall|x: SummarySource, y: SummarySource| #[trigger] source_name(x) == #[trigger] source_name(y) ==> x == y,
        forall|x: ReadingStatus, y: ReadingStatus| #[trigger] status_name(x) == #[trigger] status_name(y) ==> x == y,
        forall|x: ReadingStatus| #[trigger] status_name(x) != Seq::<char>::empty(),
{
    reveal_strlit("abstract");
    reveal_strlit("metadata");
    reveal_strlit("fulltext");
    reveal_strlit("to_read");
    reveal_strlit("reading");
    reveal_strlit("read");
    assert("abstract"@ != "metadata"@) by {
        assert("abstract"@[0] != "metadata"@[0]);
    }
    assert("abstract"@ != "fulltext"@) by {
        assert("abstract"@[0] != "fulltext"@[0]);
    }
    assert("metadata"@ != "fulltext"@) by {
        assert("metadata"@[0] != "fulltext"@[0]);
    }
    assert("to_read"@ != "reading"@) by {
        assert("to_read"@[0] != "reading"@[0]);
    }
    assert("to_read"@ != "read"@) by {
        assert("to_read"@.len() != "read"@.len());
    }
    assert("reading"@ != "read"@) by {
        assert("reading"@.len() != "read"@.len());
    }
    assert("to_read"@.len() > 0 && "reading"@.len() > 0 && "read"@.len() > 0);
}
} // verus!
