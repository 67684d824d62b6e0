//! A database of contextual knowledge: keywords, what describes them, and other names for them.

use crate::string_map::StringMap;
use crate::text::{
    debug_list, has_string, push_debug_strings, push_shortened_quoted, quoted_all, same_text,
    shortened_quoted, texts,
};
use vstd::prelude::*;

verus! {

/// Knowledge database; `P` is where it is stored
#[derive(Debug)]
pub struct KnowledgeFile<P> {
    /// Path where to load/store the content
    path: P,
    /// Knowledge content
    content: StringMap<KnowledgeOrAlias>,
}

/// Knowledge entry, or an alias
#[derive(Debug)]
pub enum KnowledgeOrAlias {
    /// Knowledge content, describing the keyword
    Content(String),
    /// Link to a different keyword, both of which are described by the same content
    Alias(String),
}

/// The texts of a knowledge entry.
pub enum EntryView {
    /// Knowledge content
    Content(Seq<char>),
    /// Link to a different keyword
    Alias(Seq<char>),
}

impl View for KnowledgeOrAlias {
    type V = EntryView;

    open spec fn view(&self) -> EntryView {
        match self {
            KnowledgeOrAlias::Content(content) => EntryView::Content(content@),
            KnowledgeOrAlias::Alias(link) => EntryView::Alias(link@),
        }
    }
}

/// The texts of all entries.
pub open spec fn entries_of(content: Map<Seq<char>, KnowledgeOrAlias>) -> Map<
    Seq<char>,
    EntryView,
> {
    content.map_values(|e: KnowledgeOrAlias| e@)
}

/// Where the links from a keyword lead.
pub enum Lookup {
    /// There is no such keyword
    Missing,
    /// To the content of this keyword
    Found(Seq<char>),
    /// To a keyword that links to one that does not exist
    Dead { from: Seq<char>, link: Seq<char> },
    /// Further on
    Further,
}

/// Where the links from a keyword lead within a number of steps.
pub open spec fn followed(db: Map<Seq<char>, EntryView>, keyword: Seq<char>, steps: nat) -> Lookup
    decreases steps,
{
    if !db.contains_key(keyword) {
        Lookup::Missing
    } else {
        match db[keyword] {
            EntryView::Content(_) => Lookup::Found(keyword),
            EntryView::Alias(link) => if !db.contains_key(link) {
                Lookup::Dead { from: keyword, link }
            } else if steps == 0 {
                Lookup::Further
            } else {
                followed(db, link, (steps - 1) as nat)
            },
        }
    }
}

/// Whether the links from a keyword end somewhere, and do not lead in a circle.
pub open spec fn ends(db: Map<Seq<char>, EntryView>, keyword: Seq<char>) -> bool {
    exists|steps: nat| !(#[trigger] followed(db, keyword, steps) is Further)
}

/// Where the links from a keyword lead in the end.
pub open spec fn lookup(db: Map<Seq<char>, EntryView>, keyword: Seq<char>) -> Lookup {
    followed(db, keyword, choose|steps: nat| !(#[trigger] followed(db, keyword, steps) is Further))
}

/// More steps lead to the same.
proof fn lemma_more_steps(db: Map<Seq<char>, EntryView>, keyword: Seq<char>, a: nat, b: nat)
    requires
        a <= b,
        !(followed(db, keyword, a) is Further),
    ensures
        followed(db, keyword, b) == followed(db, keyword, a),
    decreases a,
{
    if db.contains_key(keyword) {
        match db[keyword] {
            EntryView::Content(_) => {},
            EntryView::Alias(link) => {
                if db.contains_key(link) {
                    lemma_more_steps(db, link, (a - 1) as nat, (b - 1) as nat);
                }
            },
        }
    }
}

/// Where the links lead does not depend on how many steps are taken, if there are enough.
pub proof fn lemma_lookup(db: Map<Seq<char>, EntryView>, keyword: Seq<char>, steps: nat)
    requires
        !(followed(db, keyword, steps) is Further),
    ensures
        ends(db, keyword),
        lookup(db, keyword) == followed(db, keyword, steps),
{
    let other = choose|steps: nat| !(#[trigger] followed(db, keyword, steps) is Further);
    if steps <= other {
        lemma_more_steps(db, keyword, steps, other);
    } else {
        lemma_more_steps(db, keyword, other, steps);
    }
}

/// The keyword that is reached after a number of links.
spec fn reached(db: Map<Seq<char>, EntryView>, keyword: Seq<char>, steps: nat) -> Seq<char>
    decreases steps,
{
    if steps == 0 {
        keyword
    } else {
        match db[keyword] {
            EntryView::Content(_) => keyword,
            EntryView::Alias(link) => reached(db, link, (steps - 1) as nat),
        }
    }
}

/// While the links lead further, each keyword that is reached is there, and leads on as far as is
/// left.
proof fn lemma_reached(
    db: Map<Seq<char>, EntryView>,
    keyword: Seq<char>,
    steps: nat,
    i: nat,
    more: nat,
)
    requires
        followed(db, keyword, steps) is Further,
        i <= steps,
    ensures
        db.contains_key(reached(db, keyword, i)),
        followed(db, reached(db, keyword, i), (steps - i) as nat) is Further,
        followed(db, reached(db, keyword, i), more) == followed(db, keyword, more + i),
    decreases i,
{
    if i > 0 {
        match db[keyword] {
            EntryView::Content(_) => {},
            EntryView::Alias(link) => {
                lemma_reached(db, link, (steps - 1) as nat, (i - 1) as nat, more);
            },
        }
    }
}

/// Links that lead back to where they came from never end.
proof fn lemma_circle(
    db: Map<Seq<char>, EntryView>,
    keyword: Seq<char>,
    steps: nat,
    i: nat,
    j: nat,
    more: nat,
)
    requires
        followed(db, keyword, steps) is Further,
        i < j <= steps,
        reached(db, keyword, i) == reached(db, keyword, j),
    ensures
        followed(db, reached(db, keyword, i), more) is Further,
    decreases more,
{
    let at = reached(db, keyword, i);
    lemma_reached(db, keyword, steps, i, more);
    if more <= steps - i {
        if !(followed(db, at, more) is Further) {
            lemma_more_steps(db, at, more, (steps - i) as nat);
        }
    } else {
        let less = (more - (j - i)) as nat;
        lemma_circle(db, keyword, steps, i, j, less);
        lemma_reached(db, keyword, steps, j, less);
        assert(less + j == more + i);
    }
}

/// Links that do not end within as many steps as there are keywords lead in a circle.
proof fn lemma_endless(
    db: Map<Seq<char>, EntryView>,
    keyword: Seq<char>,
    keys: Seq<Seq<char>>,
    steps: nat,
)
    requires
        forall|k: Seq<char>| #[trigger] db.contains_key(k) ==> keys.contains(k),
        steps >= keys.len(),
        followed(db, keyword, steps) is Further,
    ensures
        !ends(db, keyword),
{
    let path = Seq::new(steps + 1, |i: int| reached(db, keyword, i as nat));
    if path.no_duplicates() {
        assert forall|i: int| 0 <= i < path.len() implies keys.contains(#[trigger] path[i]) by {
            lemma_reached(db, keyword, steps, i as nat, 0);
        }
        path.unique_seq_to_set();
        keys.lemma_cardinality_of_set();
        assert(path.to_set().subset_of(keys.to_set()));
        vstd::set_lib::lemma_len_subset(path.to_set(), keys.to_set());
        assert(false);
    }
    let (a, b) = choose|i: int, j: int|
        0 <= i < path.len() && 0 <= j < path.len() && i != j && path[i] == path[j];
    let (i, j) = if a < b {
        (a as nat, b as nat)
    } else {
        (b as nat, a as nat)
    };
    assert(path[i as int] == reached(db, keyword, i));
    assert(path[j as int] == reached(db, keyword, j));
    assert forall|n: nat| followed(db, keyword, n) is Further by {
        if n < i {
            if !(followed(db, keyword, n) is Further) {
                lemma_more_steps(db, keyword, n, steps);
            }
        } else {
            let more = (n - i) as nat;
            lemma_circle(db, keyword, steps, i, j, more);
            lemma_reached(db, keyword, steps, i, more);
            assert(more + i == n);
        }
    }
}

/// A keyword that stands for its own content is where its links lead.
proof fn lemma_content_found(db: Map<Seq<char>, EntryView>, keyword: Seq<char>)
    requires
        db.contains_key(keyword),
        db[keyword] is Content,
    ensures
        ends(db, keyword),
        lookup(db, keyword) == Lookup::Found(keyword),
{
    assert(followed(db, keyword, 0) == Lookup::Found(keyword));
    lemma_lookup(db, keyword, 0);
}

/// What the links of a keyword are found to lead to, exists.
proof fn lemma_found_is_content(db: Map<Seq<char>, EntryView>, keyword: Seq<char>, steps: nat)
    ensures
        followed(db, keyword, steps) matches Lookup::Found(to) ==> db.contains_key(to)
            && db[to] is Content,
    decreases steps,
{
    if db.contains_key(keyword) {
        match db[keyword] {
            EntryView::Content(_) => {},
            EntryView::Alias(link) => {
                if db.contains_key(link) && steps > 0 {
                    lemma_found_is_content(db, link, (steps - 1) as nat);
                }
            },
        }
    }
}

/// The content of the entry that stands for a keyword, or why there is none.
pub open spec fn answer(db: Map<Seq<char>, EntryView>, keyword: Seq<char>) -> Result<
    Seq<char>,
    Seq<char>,
> {
    match lookup(db, keyword) {
        Lookup::Found(to) => match db[to] {
            EntryView::Content(content) => Ok(content),
            EntryView::Alias(link) => Ok(link),
        },
        Lookup::Dead { from, link } => Err(dead_link(from, link)),
        _ => Err("Keyword "@ + keyword + " not present in the database"@),
    }
}

/// What is said of a link to a keyword that does not exist.
pub open spec fn dead_link(from: Seq<char>, link: Seq<char>) -> Seq<char> {
    "Dead link: '"@ + from + "' points to '"@ + link + "', which does not exist"@
}

/// Add new content to the knowledge database, or modify an existing entry
#[derive(Debug)]
pub struct KnowledgeUpsertParams {
    /// The keyword which this information describes
    pub keyword: String,
    /// The content to store under this keyword; by default, leave the existing content unchanged
    pub content: Option<String>,
    /// Alias keywords to add to this one, i.e., keywords that should resolve to the exact same
    /// content when queried
    pub add_aliases: Option<Vec<String>>,
}

/// Result of modifying the knowledge database
#[derive(Debug)]
pub struct KnowledgeUpsertResult {
    /// The keyword whose content was updated
    pub keyword: String,
    /// List of aliases that resolve to the same content
    pub aliases: Vec<String>,
}

/// Query content from the knowledge database, by keyword
#[derive(Debug)]
pub struct KnowledgeQueryParams {
    /// The keyword whose content to look up
    pub keyword: String,
}

/// Result of querying the knowledge database
#[derive(Debug)]
pub struct KnowledgeQueryResult {
    /// The keyword that was looked up
    pub keyword: String,
    /// Content that describes the keyword
    pub content: String,
}

/// The tool that modifies the knowledge database
#[derive(Clone, Copy, Debug)]
pub struct KnowledgeUpsert {}

/// The tool that queries the knowledge database
#[derive(Clone, Copy, Debug)]
pub struct KnowledgeQuery {}

impl KnowledgeUpsertParams {
    /// The content to store.
    pub open spec fn new_content(&self) -> Option<Seq<char>> {
        match self.content {
            Some(content) => Some(content@),
            None => None,
        }
    }

    /// The aliases to add.
    pub open spec fn new_aliases(&self) -> Seq<Seq<char>> {
        match self.add_aliases {
            Some(aliases) => texts(aliases@),
            None => seq![],
        }
    }
}

/// Why a keyword cannot be made an alias.
pub open spec fn taken_text(alias: Seq<char>, entry: EntryView) -> Seq<char> {
    match entry {
        EntryView::Content(_) => "Cannot make '"@ + alias
            + "' an alias: Already contains content"@,
        EntryView::Alias(link) => "Cannot make '"@ + alias + "' an alias: Already an alias of '"@
            + link + "'"@,
    }
}

/// The index of the first alias that is a keyword already.
pub open spec fn first_taken(db: Map<Seq<char>, EntryView>, aliases: Seq<Seq<char>>) -> Option<int>
    decreases aliases.len(),
{
    if aliases.len() == 0 {
        None
    } else {
        match first_taken(db, aliases.drop_last()) {
            Some(i) => Some(i),
            None => if db.contains_key(aliases.last()) {
                Some(aliases.len() - 1)
            } else {
                None
            },
        }
    }
}

/// Why the database cannot be modified as asked, as far as that can be said without following
/// links.
pub open spec fn early_error(
    db: Map<Seq<char>, EntryView>,
    params: KnowledgeUpsertParams,
) -> Option<Seq<char>> {
    if params.content is None && params.add_aliases is None {
        Some("Must update content or add aliases"@)
    } else {
        match first_taken(db, params.new_aliases()) {
            Some(i) => Some(
                taken_text(params.new_aliases()[i], db[params.new_aliases()[i]]),
            ),
            None => None,
        }
    }
}

/// Why the database cannot be modified as asked.
pub open spec fn upsert_error(
    db: Map<Seq<char>, EntryView>,
    params: KnowledgeUpsertParams,
) -> Option<Seq<char>> {
    match early_error(db, params) {
        Some(error) => Some(error),
        None => if db.contains_key(params.keyword@) {
            match lookup(db, params.keyword@) {
                Lookup::Dead { from, link } => Some(dead_link(from, link)),
                _ => None,
            }
        } else if params.content is None {
            Some(
                params.keyword@
                    + " does not have an entry yet, and you cannot add aliases to an empty entry"@,
            )
        } else if params.new_aliases().contains(params.keyword@) {
            Some(taken_text(params.keyword@, EntryView::Content(params.content->0@)))
        } else {
            None
        },
    }
}

/// The keyword whose content is updated: where the links of the given one lead, or itself where it
/// is new.
pub open spec fn upsert_target(
    db: Map<Seq<char>, EntryView>,
    params: KnowledgeUpsertParams,
) -> Seq<char> {
    match lookup(db, params.keyword@) {
        Lookup::Found(to) => to,
        _ => params.keyword@,
    }
}

/// The database with aliases for a keyword.
pub open spec fn with_aliases(
    db: Map<Seq<char>, EntryView>,
    aliases: Seq<Seq<char>>,
    to: Seq<char>,
) -> Map<Seq<char>, EntryView>
    decreases aliases.len(),
{
    if aliases.len() == 0 {
        db
    } else {
        with_aliases(db, aliases.drop_last(), to).insert(aliases.last(), EntryView::Alias(to))
    }
}

/// The database with the content in place.
pub open spec fn with_content(
    db: Map<Seq<char>, EntryView>,
    params: KnowledgeUpsertParams,
) -> Map<Seq<char>, EntryView> {
    match params.new_content() {
        Some(content) => db.insert(upsert_target(db, params), EntryView::Content(content)),
        None => db,
    }
}

/// The database as asked.
pub open spec fn upserted(
    db: Map<Seq<char>, EntryView>,
    params: KnowledgeUpsertParams,
) -> Map<Seq<char>, EntryView> {
    with_aliases(with_content(db, params), params.new_aliases(), upsert_target(db, params))
}

/// Whether the database can be modified as asked, or says why not: the links of the keyword end
/// where they have to be followed.
pub open spec fn upsert_defined(
    db: Map<Seq<char>, EntryView>,
    params: KnowledgeUpsertParams,
) -> bool {
    early_error(db, params) is None ==> ends(db, params.keyword@)
}

/// Whether a keyword is an alias that resolves to the content of `to`.
pub open spec fn resolves_to(
    db: Map<Seq<char>, EntryView>,
    keyword: Seq<char>,
    to: Seq<char>,
) -> bool {
    db[keyword] is Alias && lookup(db, keyword) == Lookup::Found(to)
}

/// The keywords among `keys` that are aliases, of `to` itself or of other aliases, and resolve to
/// the content of `to`.
pub open spec fn aliases_of(
    db: Map<Seq<char>, EntryView>,
    keys: Seq<Seq<char>>,
    to: Seq<char>,
) -> Seq<Seq<char>>
    decreases keys.len(),
{
    if keys.len() == 0 {
        seq![]
    } else if resolves_to(db, keys.last(), to) {
        aliases_of(db, keys.drop_last(), to).push(keys.last())
    } else {
        aliases_of(db, keys.drop_last(), to)
    }
}

impl<P> KnowledgeFile<P> {
    /// The entries.
    pub closed spec fn entries(&self) -> Map<Seq<char>, EntryView> {
        entries_of(self.content@)
    }

    /// The keywords, in the order in which they were added.
    pub closed spec fn keywords(&self) -> Seq<Seq<char>> {
        self.content.keys()
    }

    /// Where the database is stored.
    pub closed spec fn place(&self) -> P {
        self.path
    }

    /// The knowledge database with the given content, stored at `path`.
    pub fn open(path: P, content: StringMap<KnowledgeOrAlias>) -> (r: Self)
        ensures
            r.place() == path,
            r.entries() == entries_of(content@),
            r.keywords() == content.keys(),
    {
        KnowledgeFile { path, content }
    }

    /// Where the database is stored.
    pub fn path(&self) -> (r: &P)
        ensures
            *r == self.place(),
    {
        &self.path
    }

    /// What is to be stored.
    pub fn content(&self) -> (r: &StringMap<KnowledgeOrAlias>)
        ensures
            entries_of(r@) == self.entries(),
            r.keys() == self.keywords(),
    {
        &self.content
    }

    /// Follows the links of a keyword for as many steps as there are keywords.
    fn follow<'a>(&'a self, keyword: &'a str) -> (r: Option<Result<&'a str, String>>)
        ensures
            match r {
                Some(Ok(to)) => ends(self.entries(), keyword@) && lookup(self.entries(), keyword@)
                    == Lookup::Found(to@),
                Some(Err(error)) => {
                    &&& ends(self.entries(), keyword@)
                    &&& answer(self.entries(), keyword@) == Err::<Seq<char>, Seq<char>>(error@)
                    &&& lookup(self.entries(), keyword@) is Missing || lookup(
                        self.entries(),
                        keyword@,
                    ) is Dead
                },
                None => !ends(self.entries(), keyword@),
            },
    {
        let ghost db = self.entries();
        let mut at = keyword;
        let mut left: usize = self.content.len();
        let ghost count = left as nat;
        let mut entry = match self.content.get(keyword) {
            Some(entry) => entry,
            None => {
                let mut error = String::new();
                error.append("Keyword ");
                error.append(keyword);
                error.append(" not present in the database");
                proof {
                    assert(followed(db, keyword@, 0) is Missing);
                    lemma_lookup(db, keyword@, 0);
                    assert(error@ =~= "Keyword "@ + keyword@ + " not present in the database"@);
                }
                return Some(Err(error));
            },
        };
        loop
            invariant
                db == self.entries(),
                count == self.content.keys().len(),
                left <= count,
                db.contains_key(at@),
                db[at@] == entry@,
                followed(db, keyword@, count) == followed(db, at@, left as nat),
            decreases left,
        {
            match entry {
                KnowledgeOrAlias::Content(_) => {
                    proof {
                        assert(followed(db, at@, left as nat) == Lookup::Found(at@));
                        lemma_lookup(db, keyword@, count);
                    }
                    return Some(Ok(at));
                },
                KnowledgeOrAlias::Alias(link) => {
                    match self.content.get(link.as_str()) {
                        Some(next) => {
                            if left == 0 {
                                proof {
                                    assert(followed(db, keyword@, count) is Further);
                                    assert forall|k: Seq<char>| #[trigger]
                                        db.contains_key(k) implies self.content.keys().contains(
                                        k,
                                    ) by {
                                        assert(self.content@.contains_key(k));
                                    }
                                    lemma_endless(db, keyword@, self.content.keys(), count);
                                }
                                return None;
                            }
                            left = left - 1;
                            entry = next;
                            at = link.as_str();
                        },
                        None => {
                            let mut error = String::new();
                            error.append("Dead link: '");
                            error.append(at);
                            error.append("' points to '");
                            error.append(link.as_str());
                            error.append("', which does not exist");
                            proof {
                                assert(error@ =~= dead_link(at@, link@));
                                assert(!db.contains_key(link@));
                                assert(followed(db, at@, left as nat) is Dead);
                                lemma_lookup(db, keyword@, count);
                            }
                            return Some(Err(error));
                        },
                    }
                },
            }
        }
    }

    /// Whether the links of a keyword end somewhere.
    pub fn links_end(&self, keyword: &str) -> (r: bool)
        ensures
            r == ends(self.entries(), keyword@),
    {
        self.follow(keyword).is_some()
    }

    /// Sets an entry.
    fn set(&mut self, keyword: String, entry: KnowledgeOrAlias)
        ensures
            final(self).entries() == old(self).entries().insert(keyword@, entry@),
            final(self).keywords() == if old(self).keywords().contains(keyword@) {
                old(self).keywords()
            } else {
                old(self).keywords().push(keyword@)
            },
            final(self).place() == old(self).place(),
    {
        self.content.insert(keyword, entry);
        assert(self.entries() =~= old(self).entries().insert(keyword@, entry@));
    }

    /// The aliases that resolve to the content of `to`, in the order in which they were added.
    fn aliases(&self, to: &str) -> (r: Vec<String>)
        ensures
            texts(r@) == aliases_of(self.entries(), self.keywords(), to@),
            self.keywords().no_duplicates(),
            forall|k: Seq<char>|
                self.keywords().contains(k) <==> #[trigger] self.entries().contains_key(k),
    {
        let ghost db = self.entries();
        let ghost keys = self.keywords();
        let mut out: Vec<String> = Vec::new();
        assert(keys.take(0) =~= seq![]);
        assert(texts(out@) =~= seq![]);
        let count: usize = self.content.len();
        for i in 0..count
            invariant
                count == keys.len(),
                keys == self.content.keys(),
                db == entries_of(self.content@),
                texts(out@) == aliases_of(db, keys.take(i as int), to@),
        {
            let key = self.content.key_at(i);
            let ghost before = out@;
            proof {
                assert(keys.take(i + 1).drop_last() =~= keys.take(i as int));
                assert(keys.take(i + 1).last() == key@);
            }
            match self.content.value_at(i) {
                KnowledgeOrAlias::Content(_) => {
                    assert(db[key@] is Content);
                },
                KnowledgeOrAlias::Alias(link) => {
                    assert(db[key@] == EntryView::Alias(link@));
                    match self.follow(key.as_str()) {
                        Some(Ok(found)) => {
                            if same_text(found, to) {
                                out.push(key.clone());
                                assert(texts(out@) =~= texts(before).push(key@));
                            }
                        },
                        Some(Err(_)) => {},
                        None => {
                            proof {
                                lemma_endless_is_not_found(db, key@);
                            }
                        },
                    }
                },
            }
        }
        assert(keys.take(keys.len() as int) =~= keys);
        out
    }
}

/// Links that never end lead to no content.
proof fn lemma_endless_is_not_found(db: Map<Seq<char>, EntryView>, keyword: Seq<char>)
    requires
        !ends(db, keyword),
    ensures
        !(lookup(db, keyword) is Found),
{
    let steps = choose|steps: nat| !(#[trigger] followed(db, keyword, steps) is Further);
    assert(followed(db, keyword, steps) is Further);
}

/// The first alias that is a keyword already, among the first `k`, is the first among all.
proof fn lemma_first_taken(db: Map<Seq<char>, EntryView>, aliases: Seq<Seq<char>>, k: int)
    requires
        0 <= k <= aliases.len(),
        first_taken(db, aliases.take(k)) is Some,
    ensures
        first_taken(db, aliases) == first_taken(db, aliases.take(k)),
    decreases aliases.len() - k,
{
    if k < aliases.len() {
        assert(aliases.take(k + 1).drop_last() =~= aliases.take(k));
        lemma_first_taken(db, aliases, k + 1);
    } else {
        assert(aliases.take(k) =~= aliases);
    }
}

impl KnowledgeUpsert {
    /// Create a knowledge_upsert tool.
    pub fn new() -> (r: Self)
        ensures
            r == (KnowledgeUpsert {  }),
    {
        KnowledgeUpsert {  }
    }

    /// Why a keyword cannot be made an alias.
    fn taken(alias: &str, entry: &KnowledgeOrAlias) -> (r: String)
        ensures
            r@ == taken_text(alias@, entry@),
    {
        let mut error = String::new();
        error.append("Cannot make '");
        error.append(alias);
        match entry {
            KnowledgeOrAlias::Content(_) => {
                error.append("' an alias: Already contains content");
            },
            KnowledgeOrAlias::Alias(link) => {
                error.append("' an alias: Already an alias of '");
                error.append(link.as_str());
                error.append("'");
            },
        }
        assert(error@ =~= taken_text(alias@, entry@));
        error
    }

    /// The keyword whose content is to be updated, or why the database cannot be modified; `None`
    /// where links would have to be followed in a circle.
    fn prepare<P>(db: &KnowledgeFile<P>, params: &KnowledgeUpsertParams) -> (r: Option<
        Result<String, String>,
    >)
        ensures
            match r {
                None => early_error(db.entries(), *params) is None && !ends(
                    db.entries(),
                    params.keyword@,
                ),
                Some(Ok(target)) => {
                    &&& ends(db.entries(), params.keyword@)
                    &&& upsert_error(db.entries(), *params) is None
                    &&& target@ == upsert_target(db.entries(), *params)
                },
                Some(Err(error)) => {
                    &&& early_error(db.entries(), *params) is None ==> ends(
                        db.entries(),
                        params.keyword@,
                    )
                    &&& upsert_error(db.entries(), *params) == Some(error@)
                },
            },
    {
        if params.content.is_none() && params.add_aliases.is_none() {
            return Some(Err("Must update content or add aliases".to_string()));
        }
        match &params.add_aliases {
            Some(aliases) => {
                let ghost all = texts(aliases@);
                assert(all.take(0) =~= seq![]);
                for i in 0..aliases.len()
                    invariant
                        all == texts(aliases@),
                        all == params.new_aliases(),
                        params.add_aliases is Some,
                        first_taken(db.entries(), all.take(i as int)) is None,
                {
                    proof {
                        assert(all.take(i + 1).drop_last() =~= all.take(i as int));
                        assert(all.take(i + 1).last() == aliases@[i as int]@);
                    }
                    match db.content.get(aliases[i].as_str()) {
                        Some(entry) => {
                            proof {
                                lemma_first_taken(db.entries(), all, i + 1);
                            }
                            return Some(Err(Self::taken(aliases[i].as_str(), entry)));
                        },
                        None => {},
                    }
                }
                assert(all.take(all.len() as int) =~= all);
            },
            None => {},
        }
        match db.follow(params.keyword.as_str()) {
            None => None,
            Some(Ok(to)) => Some(Ok(to.to_string())),
            Some(Err(error)) => {
                if db.content.contains_key(params.keyword.as_str()) {
                    proof {
                        lemma_present_is_not_missing(db.entries(), params.keyword@);
                    }
                    return Some(Err(error));
                }
                proof {
                    assert(followed(db.entries(), params.keyword@, 0) is Missing);
                    lemma_lookup(db.entries(), params.keyword@, 0);
                }
                match (&params.content, &params.add_aliases) {
                    (Some(content), Some(aliases)) => {
                        if has_string(aliases, params.keyword.as_str()) {
                            let entry = KnowledgeOrAlias::Content(content.clone());
                            return Some(Err(Self::taken(params.keyword.as_str(), &entry)));
                        }
                        return Some(Ok(params.keyword.clone()));
                    },
                    (Some(_), None) => {
                        return Some(Ok(params.keyword.clone()));
                    },
                    (None, _) => {},
                }
                let mut error = String::new();
                error.append(params.keyword.as_str());
                error.append(
                    " does not have an entry yet, and you cannot add aliases to an empty entry",
                );
                Some(Err(error))
            },
        }
    }

    /// Whether the database can be modified as asked, or says why not.
    pub fn accepts<P>(db: &KnowledgeFile<P>, params: &KnowledgeUpsertParams) -> (r: bool)
        ensures
            r == upsert_defined(db.entries(), *params),
    {
        Self::prepare(db, params).is_some()
    }

    /// Modifies the knowledge database: the content of the keyword is replaced where there is new
    /// content, and aliases are added. Where that is an error, nothing is changed.
    pub fn execute<P>(&self, db: &mut KnowledgeFile<P>, params: KnowledgeUpsertParams) -> (r:
        Result<KnowledgeUpsertResult, String>)
        requires
            upsert_defined(old(db).entries(), params),
        ensures
            final(db).place() == old(db).place(),
            match upsert_error(old(db).entries(), params) {
                Some(told) => {
                    &&& r matches Err(error) && error@ == told
                    &&& *final(db) == *old(db)
                },
                None => {
                    &&& final(db).entries() == upserted(old(db).entries(), params)
                    &&& old(db).keywords().is_prefix_of(final(db).keywords())
                    &&& final(db).keywords().no_duplicates()
                    &&& forall|k: Seq<char>|
                        final(db).keywords().contains(k) <==> #[trigger]
                            final(db).entries().contains_key(k)
                    &&& r matches Ok(result) && result.keyword == params.keyword && texts(
                        result.aliases@,
                    ) == aliases_of(
                        final(db).entries(),
                        final(db).keywords(),
                        upsert_target(old(db).entries(), params),
                    )
                },
            },
    {
        let target = match Self::prepare(db, &params) {
            None => {
                return Err(String::new());
            },
            Some(Err(error)) => {
                return Err(error);
            },
            Some(Ok(target)) => target,
        };
        let ghost before = db.entries();
        match params.content {
            Some(content) => {
                db.set(target.clone(), KnowledgeOrAlias::Content(content));
            },
            None => {},
        }
        let ghost base = db.entries();
        match params.add_aliases {
            Some(aliases) => {
                let ghost given = aliases@;
                let ghost all = texts(given);
                assert(all.take(0) =~= seq![]);
                for alias in it: aliases.into_iter()
                    invariant
                        it.seq() == given,
                        all == texts(given),
                        db.place() == old(db).place(),
                        old(db).keywords().is_prefix_of(db.keywords()),
                        db.entries() == with_aliases(base, all.take(it.index() as int), target@),
                {
                    proof {
                        let i = it.index() as int;
                        assert(all.take(i + 1).drop_last() =~= all.take(i));
                        assert(all.take(i + 1).last() == alias@);
                    }
                    db.set(alias, KnowledgeOrAlias::Alias(target.clone()));
                }
                assert(all.take(all.len() as int) =~= all);
            },
            None => {},
        }
        let aliases = db.aliases(target.as_str());
        Ok(KnowledgeUpsertResult { keyword: params.keyword, aliases })
    }
}

/// A keyword that is there is not missing.
proof fn lemma_present_is_not_missing(db: Map<Seq<char>, EntryView>, keyword: Seq<char>)
    requires
        db.contains_key(keyword),
        ends(db, keyword),
    ensures
        !(lookup(db, keyword) is Missing),
{
    let steps = choose|steps: nat| !(#[trigger] followed(db, keyword, steps) is Further);
    lemma_never_missing(db, keyword, steps);
}

/// From a keyword that is there, links never lead to one that is missing.
proof fn lemma_never_missing(db: Map<Seq<char>, EntryView>, keyword: Seq<char>, steps: nat)
    requires
        db.contains_key(keyword),
    ensures
        !(followed(db, keyword, steps) is Missing),
    decreases steps,
{
    match db[keyword] {
        EntryView::Content(_) => {},
        EntryView::Alias(link) => {
            if db.contains_key(link) && steps > 0 {
                lemma_never_missing(db, link, (steps - 1) as nat);
            }
        },
    }
}

impl KnowledgeQuery {
    /// Create a knowledge_query tool.
    pub fn new() -> (r: Self)
        ensures
            r == (KnowledgeQuery {  }),
    {
        KnowledgeQuery {  }
    }

    /// Query the content that describes a keyword, following links. The links must not lead in a
    /// circle.
    pub fn execute<P>(&self, db: &KnowledgeFile<P>, params: KnowledgeQueryParams) -> (r: Result<
        KnowledgeQueryResult,
        String,
    >)
        requires
            ends(db.entries(), params.keyword@),
        ensures
            match answer(db.entries(), params.keyword@) {
                Ok(content) => r matches Ok(result) && result.keyword == params.keyword
                    && result.content@ == content,
                Err(told) => r matches Err(error) && error@ == told,
            },
    {
        let content = match db.follow(params.keyword.as_str()) {
            None => {
                return Err(String::new());
            },
            Some(Err(error)) => {
                return Err(error);
            },
            Some(Ok(to)) => {
                proof {
                    let steps = choose|steps: nat|
                        !(#[trigger] followed(db.entries(), params.keyword@, steps) is Further);
                    lemma_found_is_content(db.entries(), params.keyword@, steps);
                }
                match db.content.get(to) {
                    Some(KnowledgeOrAlias::Content(content)) => content.clone(),
                    Some(KnowledgeOrAlias::Alias(link)) => link.clone(),
                    None => String::new(),
                }
            },
        };
        Ok(KnowledgeQueryResult { keyword: params.keyword, content })
    }
}

impl KnowledgeUpsertParams {
    /// The parameters in a form for display.
    pub fn display(&self) -> (r: String)
        ensures
            r@ == "key="@ + self.keyword@ + (match self.content {
                Some(content) => " content="@ + shortened_quoted(content@),
                None => seq![],
            }) + (match self.add_aliases {
                Some(aliases) => " add_aliases="@ + debug_list(quoted_all(texts(aliases@))),
                None => seq![],
            }),
    {
        let mut out = String::new();
        out.append("key=");
        out.append(self.keyword.as_str());
        let ghost head = out@;
        match &self.content {
            Some(content) => {
                out.append(" content=");
                push_shortened_quoted(&mut out, content.as_str());
            },
            None => {},
        }
        let ghost middle = match &self.content {
            Some(content) => " content="@ + shortened_quoted(content@),
            None => seq![],
        };
        assert(out@ =~= head + middle);
        match &self.add_aliases {
            Some(aliases) => {
                out.append(" add_aliases=");
                push_debug_strings(&mut out, aliases);
            },
            None => {},
        }
        assert(out@ =~= "key="@ + self.keyword@ + middle + (match self.add_aliases {
            Some(aliases) => " add_aliases="@ + debug_list(quoted_all(texts(aliases@))),
            None => seq![],
        }));
        out
    }
}

impl KnowledgeUpsertResult {
    /// The result in a form for display.
    pub fn display(&self) -> (r: String)
        ensures
            r@ == "key="@ + self.keyword@ + " aliases="@ + debug_list(
                quoted_all(texts(self.aliases@)),
            ),
    {
        let mut out = String::new();
        out.append("key=");
        out.append(self.keyword.as_str());
        out.append(" aliases=");
        push_debug_strings(&mut out, &self.aliases);
        assert(out@ =~= "key="@ + self.keyword@ + " aliases="@ + debug_list(
            quoted_all(texts(self.aliases@)),
        ));
        out
    }
}

impl KnowledgeQueryParams {
    /// The parameters in a form for display.
    pub fn display(&self) -> (r: String)
        ensures
            r@ == "key="@ + self.keyword@,
    {
        let mut out = String::new();
        out.append("key=");
        out.append(self.keyword.as_str());
        assert(out@ =~= "key="@ + self.keyword@);
        out
    }
}

impl KnowledgeQueryResult {
    /// The result in a form for display.
    pub fn display(&self) -> (r: String)
        ensures
            r@ == "key="@ + self.keyword@ + " content="@ + shortened_quoted(self.content@),
    {
        let mut out = String::new();
        out.append("key=");
        out.append(self.keyword.as_str());
        out.append(" content=");
        push_shortened_quoted(&mut out, self.content.as_str());
        assert(out@ =~= "key="@ + self.keyword@ + " content="@ + shortened_quoted(self.content@));
        out
    }
}

/// Aliases that were added link to the keyword; nothing else is changed.
proof fn lemma_with_aliases(
    db: Map<Seq<char>, EntryView>,
    aliases: Seq<Seq<char>>,
    to: Seq<char>,
    k: Seq<char>,
)
    ensures
        ({
            let after = with_aliases(db, aliases, to);
            if aliases.contains(k) {
                after.contains_key(k) && after[k] == EntryView::Alias(to)
            } else {
                after.contains_key(k) == db.contains_key(k) && (db.contains_key(k) ==> after[k]
                    == db[k])
            }
        }),
    decreases aliases.len(),
{
    if aliases.len() > 0 {
        let rest = aliases.drop_last();
        lemma_with_aliases(db, rest, to, k);
        if aliases.contains(k) && k != aliases.last() {
            let i = aliases.index_of(k);
            assert(rest[i] == k);
        }
        if rest.contains(k) {
            let i = rest.index_of(k);
            assert(aliases[i] == k);
        }
    }
}

/// No alias that may be added is a keyword already.
proof fn lemma_none_taken(db: Map<Seq<char>, EntryView>, aliases: Seq<Seq<char>>, k: Seq<char>)
    requires
        first_taken(db, aliases) is None,
        aliases.contains(k),
    ensures
        !db.contains_key(k),
    decreases aliases.len(),
{
    let i = aliases.index_of(k);
    if i < aliases.len() - 1 {
        assert(aliases.drop_last()[i] == k);
        lemma_none_taken(db, aliases.drop_last(), k);
    }
}

/// What the database holds after it was modified: the aliases, the content of the keyword, and all
/// else as it was.
proof fn lemma_upserted(
    db: Map<Seq<char>, EntryView>,
    params: KnowledgeUpsertParams,
    k: Seq<char>,
)
    requires
        upsert_error(db, params) is None,
        upsert_defined(db, params),
    ensures
        ({
            let after = upserted(db, params);
            let target = upsert_target(db, params);
            &&& after.contains_key(target) && after[target] is Content
            &&& !params.new_aliases().contains(target)
            &&& params.new_content() matches Some(content) ==> after[target]
                == EntryView::Content(content)
            &&& params.new_content() is None ==> db.contains_key(target) && after[target]
                == db[target]
            &&& params.new_aliases().contains(k) ==> !db.contains_key(k) && after.contains_key(k)
                && after[k] == EntryView::Alias(target)
            &&& db.contains_key(k) && k != target ==> after.contains_key(k) && after[k] == db[k]
            &&& db.contains_key(target) ==> db[target] is Content
            &&& after.contains_key(k) && !db.contains_key(k) && !params.new_aliases().contains(k)
                ==> k == target
        }),
{
    let aliases = params.new_aliases();
    let target = upsert_target(db, params);
    let base = with_content(db, params);
    lemma_with_aliases(base, aliases, target, k);
    lemma_with_aliases(base, aliases, target, target);
    if aliases.contains(k) {
        lemma_none_taken(db, aliases, k);
    }
    let steps = choose|steps: nat| !(#[trigger] followed(db, params.keyword@, steps) is Further);
    if db.contains_key(params.keyword@) {
        lemma_present_is_not_missing(db, params.keyword@);
        lemma_found_is_content(db, params.keyword@, steps);
        if aliases.contains(target) {
            lemma_none_taken(db, aliases, target);
        }
    } else {
        assert(followed(db, params.keyword@, 0) is Missing);
        lemma_lookup(db, params.keyword@, 0);
    }
}

/// Links that were found to lead somewhere still lead there.
proof fn lemma_still_found(
    db: Map<Seq<char>, EntryView>,
    params: KnowledgeUpsertParams,
    k: Seq<char>,
    steps: nat,
)
    requires
        upsert_error(db, params) is None,
        upsert_defined(db, params),
        followed(db, k, steps) is Found,
    ensures
        followed(upserted(db, params), k, steps) == followed(db, k, steps),
    decreases steps,
{
    lemma_upserted(db, params, k);
    match db[k] {
        EntryView::Content(_) => {},
        EntryView::Alias(link) => {
            lemma_upserted(db, params, link);
            if steps > 0 {
                lemma_still_found(db, params, link, (steps - 1) as nat);
            }
        },
    }
}

/// Links that ended still end.
proof fn lemma_still_ends(
    db: Map<Seq<char>, EntryView>,
    params: KnowledgeUpsertParams,
    k: Seq<char>,
    steps: nat,
)
    requires
        upsert_error(db, params) is None,
        upsert_defined(db, params),
        db.contains_key(k),
        !(followed(db, k, steps) is Further),
    ensures
        !(followed(upserted(db, params), k, steps + 2) is Further),
    decreases steps,
{
    let after = upserted(db, params);
    let target = upsert_target(db, params);
    lemma_upserted(db, params, k);
    match db[k] {
        EntryView::Content(_) => {},
        EntryView::Alias(link) => {
            lemma_upserted(db, params, link);
            if db.contains_key(link) {
                lemma_still_ends(db, params, link, (steps - 1) as nat);
            } else if after.contains_key(link) {
                if params.new_aliases().contains(link) {
                    assert(followed(after, target, steps) == Lookup::Found(target));
                    assert(followed(after, link, steps + 1) == Lookup::Found(target));
                } else {
                    assert(followed(after, link, steps + 1) == Lookup::Found(target));
                }
                assert(followed(after, k, steps + 2) == followed(after, link, steps + 1));
            }
        },
    }
}

/// New content is what a query for its keyword gives.
pub proof fn upserted_content_is_found(
    db: Map<Seq<char>, EntryView>,
    params: KnowledgeUpsertParams,
    content: Seq<char>,
)
    requires
        upsert_defined(db, params),
        upsert_error(db, params) is None,
        params.new_content() == Some(content),
    ensures
        ends(upserted(db, params), params.keyword@),
        answer(upserted(db, params), params.keyword@) == Ok::<Seq<char>, Seq<char>>(content),
{
    let after = upserted(db, params);
    let target = upsert_target(db, params);
    lemma_upserted(db, params, params.keyword@);
    if db.contains_key(params.keyword@) {
        lemma_present_is_not_missing(db, params.keyword@);
        let steps = choose|steps: nat|
            !(#[trigger] followed(db, params.keyword@, steps) is Further);
        lemma_still_found(db, params, params.keyword@, steps);
        lemma_lookup(after, params.keyword@, steps);
    } else {
        assert(followed(db, params.keyword@, 0) is Missing);
        lemma_lookup(db, params.keyword@, 0);
        lemma_content_found(after, target);
    }
}

/// An alias that was added gives what its keyword gives.
pub proof fn upserted_aliases_resolve_alike(
    db: Map<Seq<char>, EntryView>,
    params: KnowledgeUpsertParams,
    alias: Seq<char>,
)
    requires
        upsert_defined(db, params),
        upsert_error(db, params) is None,
        params.new_aliases().contains(alias),
    ensures
        ends(upserted(db, params), alias),
        answer(upserted(db, params), alias) == answer(upserted(db, params), params.keyword@),
        answer(upserted(db, params), alias) is Ok,
{
    let after = upserted(db, params);
    let target = upsert_target(db, params);
    lemma_upserted(db, params, alias);
    lemma_upserted(db, params, params.keyword@);
    lemma_content_found(after, target);
    assert(followed(after, target, 0) == Lookup::Found(target));
    assert(followed(after, alias, 1) == Lookup::Found(target));
    lemma_lookup(after, alias, 1);
    if db.contains_key(params.keyword@) {
        lemma_present_is_not_missing(db, params.keyword@);
        let steps = choose|steps: nat|
            !(#[trigger] followed(db, params.keyword@, steps) is Further);
        lemma_still_found(db, params, params.keyword@, steps);
        lemma_lookup(after, params.keyword@, steps);
    } else {
        assert(followed(db, params.keyword@, 0) is Missing);
        lemma_lookup(db, params.keyword@, 0);
    }
}

/// The aliases that are listed for a keyword are those that resolve to its content, and no others.
pub proof fn listed_aliases_are_those_that_resolve(
    db: Map<Seq<char>, EntryView>,
    keys: Seq<Seq<char>>,
    to: Seq<char>,
    keyword: Seq<char>,
)
    ensures
        aliases_of(db, keys, to).contains(keyword) <==> keys.contains(keyword) && resolves_to(
            db,
            keyword,
            to,
        ),
    decreases keys.len(),
{
    if keys.len() > 0 {
        let rest = keys.drop_last();
        let listed = aliases_of(db, rest, to);
        listed_aliases_are_those_that_resolve(db, rest, to, keyword);
        if keys.contains(keyword) && keyword != keys.last() {
            assert(rest[keys.index_of(keyword)] == keyword);
        }
        if rest.contains(keyword) {
            assert(keys[rest.index_of(keyword)] == keyword);
        }
        if resolves_to(db, keys.last(), to) {
            let longer = listed.push(keys.last());
            assert(longer[listed.len() as int] == keys.last());
            if listed.contains(keyword) {
                assert(longer[listed.index_of(keyword)] == keyword);
            }
            if longer.contains(keyword) && keyword != keys.last() {
                assert(listed[longer.index_of(keyword)] == keyword);
            }
        }
    }
}

/// A modification leaves alone what does not resolve to the keyword: what another keyword gave, it
/// still gives.
pub proof fn other_keywords_are_left_alone(
    db: Map<Seq<char>, EntryView>,
    params: KnowledgeUpsertParams,
    keyword: Seq<char>,
)
    requires
        upsert_defined(db, params),
        upsert_error(db, params) is None,
        ends(db, keyword),
        answer(db, keyword) is Ok,
        lookup(db, keyword) != Lookup::Found(upsert_target(db, params)),
    ensures
        ends(upserted(db, params), keyword),
        answer(upserted(db, params), keyword) == answer(db, keyword),
{
    let after = upserted(db, params);
    let steps = choose|steps: nat| !(#[trigger] followed(db, keyword, steps) is Further);
    lemma_found_is_content(db, keyword, steps);
    lemma_still_found(db, params, keyword, steps);
    lemma_lookup(after, keyword, steps);
    match lookup(db, keyword) {
        Lookup::Found(to) => {
            lemma_upserted(db, params, to);
        },
        _ => {},
    }
}

/// Modifications never make links lead in a circle: where all links end, they still do afterwards.
pub proof fn links_still_end(db: Map<Seq<char>, EntryView>, params: KnowledgeUpsertParams)
    requires
        upsert_defined(db, params),
        upsert_error(db, params) is None,
        forall|k: Seq<char>| #[trigger] db.contains_key(k) ==> ends(db, k),
    ensures
        forall|k: Seq<char>| #[trigger]
            upserted(db, params).contains_key(k) ==> ends(upserted(db, params), k),
{
    let after = upserted(db, params);
    let target = upsert_target(db, params);
    assert forall|k: Seq<char>| #[trigger] after.contains_key(k) implies ends(after, k) by {
        lemma_upserted(db, params, k);
        if db.contains_key(k) {
            assert(ends(db, k));
            let steps = choose|steps: nat| !(#[trigger] followed(db, k, steps) is Further);
            lemma_still_ends(db, params, k, steps);
            lemma_lookup(after, k, steps + 2);
        } else if params.new_aliases().contains(k) {
            assert(followed(after, target, 0) == Lookup::Found(target));
            assert(followed(after, k, 1) == Lookup::Found(target));
            lemma_lookup(after, k, 1);
        } else {
            lemma_content_found(after, k);
        }
    }
}

/// What a query gives: the content of a keyword that has some; of an alias what the keyword gives that
/// it links to; and an error where there is no such keyword, or the link of an alias leads nowhere.
pub proof fn queries_follow_links(db: Map<Seq<char>, EntryView>, keyword: Seq<char>)
    requires
        ends(db, keyword),
    ensures
        !db.contains_key(keyword) ==> answer(db, keyword) == Err::<Seq<char>, Seq<char>>(
            "Keyword "@ + keyword + " not present in the database"@,
        ),
        db.contains_key(keyword) ==> match db[keyword] {
            EntryView::Content(content) => answer(db, keyword) == Ok::<Seq<char>, Seq<char>>(
                content,
            ),
            EntryView::Alias(link) => if db.contains_key(link) {
                ends(db, link) && answer(db, keyword) == answer(db, link)
            } else {
                answer(db, keyword) == Err::<Seq<char>, Seq<char>>(
                    "Dead link: '"@ + keyword + "' points to '"@ + link
                        + "', which does not exist"@,
                )
            },
        },
{
    if !db.contains_key(keyword) {
        assert(followed(db, keyword, 0) is Missing);
        lemma_lookup(db, keyword, 0);
    } else {
        match db[keyword] {
            EntryView::Content(_) => {
                assert(followed(db, keyword, 0) == Lookup::Found(keyword));
                lemma_lookup(db, keyword, 0);
            },
            EntryView::Alias(link) => {
                if !db.contains_key(link) {
                    assert(followed(db, keyword, 0) is Dead);
                    lemma_lookup(db, keyword, 0);
                } else {
                    let steps = choose|steps: nat|
                        !(#[trigger] followed(db, keyword, steps) is Further);
                    assert(steps > 0);
                    assert(followed(db, keyword, steps) == followed(db, link, (steps - 1) as nat));
                    lemma_lookup(db, link, (steps - 1) as nat);
                    lemma_lookup(db, keyword, steps);
                    lemma_present_is_not_missing(db, link);
                }
            },
        }
    }
}

/// Where the first taken alias stands.
proof fn lemma_which_is_taken(db: Map<Seq<char>, EntryView>, aliases: Seq<Seq<char>>)
    ensures
        match first_taken(db, aliases) {
            Some(i) => 0 <= i < aliases.len() && db.contains_key(aliases[i]) && (forall|j: int|
                0 <= j < i ==> !db.contains_key(#[trigger] aliases[j])),
            None => forall|j: int| 0 <= j < aliases.len() ==> !db.contains_key(
                #[trigger] aliases[j],
            ),
        },
    decreases aliases.len(),
{
    if aliases.len() > 0 {
        let fewer = aliases.drop_last();
        lemma_which_is_taken(db, fewer);
        match first_taken(db, fewer) {
            Some(i) => {
                assert(fewer[i] == aliases[i]);
                assert forall|j: int| 0 <= j < i implies !db.contains_key(
                    #[trigger] aliases[j],
                ) by {
                    assert(fewer[j] == aliases[j]);
                }
            },
            None => {
                assert forall|j: int| 0 <= j < aliases.len() - 1 implies !db.contains_key(
                    #[trigger] aliases[j],
                ) by {
                    assert(fewer[j] == aliases[j]);
                }
                assert(aliases.last() == aliases[aliases.len() - 1]);
            },
        }
    }
}

/// When a modification is refused: where it says nothing; where it would make an alias of a keyword
/// that is there already; where the keyword leads to a dead link; and where the keyword is new and
/// gets no content, or is to be its own alias.
pub proof fn modifications_are_refused_for_a_reason(
    db: Map<Seq<char>, EntryView>,
    params: KnowledgeUpsertParams,
)
    requires
        upsert_defined(db, params),
    ensures
        upsert_error(db, params) is Some <==> {
            ||| params.content is None && params.add_aliases is None
            ||| exists|i: int|
                0 <= i < params.new_aliases().len() && db.contains_key(
                    #[trigger] params.new_aliases()[i],
                )
            ||| db.contains_key(params.keyword@) && answer(db, params.keyword@) is Err
            ||| !db.contains_key(params.keyword@) && params.content is None
            ||| !db.contains_key(params.keyword@) && params.new_aliases().contains(params.keyword@)
        },
{
    lemma_which_is_taken(db, params.new_aliases());
    if early_error(db, params) is None && db.contains_key(params.keyword@) {
        lemma_present_is_not_missing(db, params.keyword@);
    }
}

/// Of several aliases that are there already the first one is named in the refusal, with what it is.
pub proof fn refusals_name_the_first_taken_alias(
    db: Map<Seq<char>, EntryView>,
    params: KnowledgeUpsertParams,
    i: int,
)
    requires
        0 <= i < params.new_aliases().len(),
        db.contains_key(params.new_aliases()[i]),
        forall|j: int| 0 <= j < i ==> !db.contains_key(#[trigger] params.new_aliases()[j]),
    ensures
        upsert_error(db, params) == Some(
            match db[params.new_aliases()[i]] {
                EntryView::Content(_) => "Cannot make '"@ + params.new_aliases()[i]
                    + "' an alias: Already contains content"@,
                EntryView::Alias(link) => "Cannot make '"@ + params.new_aliases()[i]
                    + "' an alias: Already an alias of '"@ + link + "'"@,
            },
        ),
{
    lemma_which_is_taken(db, params.new_aliases());
    let at = first_taken(db, params.new_aliases())->0;
    if at < i {
        assert(!db.contains_key(params.new_aliases()[at]));
    }
    assert(at == i);
}

/// What a modification changes: the aliases are added, each for the keyword whose content is shown for
/// the given one, and the content of that keyword is set where there is any; all other entries stay
/// as they are, and none is removed.
pub proof fn modifications_change_what_they_say(
    db: Map<Seq<char>, EntryView>,
    params: KnowledgeUpsertParams,
    k: Seq<char>,
)
    requires
        upsert_defined(db, params),
        upsert_error(db, params) is None,
    ensures
        ({
            let after = upserted(db, params);
            let target = upsert_target(db, params);
            &&& after.contains_key(k) <==> db.contains_key(k) || params.new_aliases().contains(k) || k
                == params.keyword@
            &&& params.new_aliases().contains(k) ==> after[k] == EntryView::Alias(target)
            &&& params.content is Some ==> after[target] == EntryView::Content(params.content->0@)
            &&& params.content is None ==> after[target] == db[target]
            &&& db.contains_key(k) && k != target ==> after[k] == db[k]
            &&& !db.contains_key(params.keyword@) ==> target == params.keyword@
            &&& db.contains_key(params.keyword@) && db[params.keyword@] is Content ==> target
                == params.keyword@
            &&& db.contains_key(params.keyword@) ==> lookup(db, params.keyword@) == Lookup::Found(
                target,
            )
        }),
{
    let after = upserted(db, params);
    let target = upsert_target(db, params);
    lemma_upserted(db, params, k);
    lemma_upserted(db, params, params.keyword@);
    if db.contains_key(params.keyword@) {
        lemma_present_is_not_missing(db, params.keyword@);
        if db[params.keyword@] is Content {
            lemma_content_found(db, params.keyword@);
        }
    } else {
        assert(followed(db, params.keyword@, 0) is Missing);
        lemma_lookup(db, params.keyword@, 0);
    }
    let steps = choose|steps: nat| !(#[trigger] followed(db, params.keyword@, steps) is Further);
    lemma_found_is_content(db, params.keyword@, steps);
}

/// Adding aliases alone leaves what a keyword gives as it is.
pub proof fn aliases_leave_the_content(
    db: Map<Seq<char>, EntryView>,
    params: KnowledgeUpsertParams,
)
    requires
        upsert_defined(db, params),
        upsert_error(db, params) is None,
        params.content is None,
    ensures
        answer(upserted(db, params), params.keyword@) == answer(db, params.keyword@),
        answer(db, params.keyword@) is Ok,
{
    let after = upserted(db, params);
    lemma_upserted(db, params, params.keyword@);
    lemma_present_is_not_missing(db, params.keyword@);
    let steps = choose|steps: nat| !(#[trigger] followed(db, params.keyword@, steps) is Further);
    lemma_found_is_content(db, params.keyword@, steps);
    lemma_still_found(db, params, params.keyword@, steps);
    lemma_lookup(after, params.keyword@, steps);
    lemma_upserted(db, params, upsert_target(db, params));
}

/// The aliases that are listed for a keyword are links, not content, and all lead to its content; so it
/// is not among them itself. They come in the order of the keywords.
pub proof fn listed_aliases_are_links(
    db: Map<Seq<char>, EntryView>,
    keys: Seq<Seq<char>>,
    more: Seq<Seq<char>>,
    to: Seq<char>,
    keyword: Seq<char>,
)
    ensures
        aliases_of(db, keys, to).contains(keyword) <==> keys.contains(keyword) && db[keyword] is Alias
            && lookup(db, keyword) == Lookup::Found(to),
        db[to] is Content ==> !aliases_of(db, keys, to).contains(to),
        aliases_of(db, keys + more, to) == aliases_of(db, keys, to) + aliases_of(db, more, to),
{
    listed_aliases_are_those_that_resolve(db, keys, to, keyword);
    listed_aliases_are_those_that_resolve(db, keys, to, to);
    lemma_aliases_add(db, keys, more, to);
}

/// The aliases among more keywords.
proof fn lemma_aliases_add(
    db: Map<Seq<char>, EntryView>,
    keys: Seq<Seq<char>>,
    more: Seq<Seq<char>>,
    to: Seq<char>,
)
    ensures
        aliases_of(db, keys + more, to) == aliases_of(db, keys, to) + aliases_of(db, more, to),
    decreases more.len(),
{
    if more.len() == 0 {
        assert(keys + more =~= keys);
        assert(aliases_of(db, keys, to) + aliases_of(db, more, to) =~= aliases_of(db, keys, to));
    } else {
        lemma_aliases_add(db, keys, more.drop_last(), to);
        assert((keys + more).drop_last() =~= keys + more.drop_last());
        assert((keys + more).last() == more.last());
        assert(aliases_of(db, keys + more, to) =~= aliases_of(db, keys, to) + aliases_of(
            db,
            more,
            to,
        ));
    }
}

/// The aliases that were added are listed, and those of the keyword from before still are.
pub proof fn added_aliases_are_listed(
    db: Map<Seq<char>, EntryView>,
    params: KnowledgeUpsertParams,
    keys: Seq<Seq<char>>,
    alias: Seq<char>,
)
    requires
        upsert_defined(db, params),
        upsert_error(db, params) is None,
        keys.contains(alias),
        params.new_aliases().contains(alias) || (ends(db, alias) && db.contains_key(alias)
            && db[alias] is Alias && lookup(db, alias) == Lookup::Found(upsert_target(db, params))),
    ensures
        aliases_of(upserted(db, params), keys, upsert_target(db, params)).contains(alias),
{
    let after = upserted(db, params);
    let target = upsert_target(db, params);
    lemma_upserted(db, params, alias);
    listed_aliases_are_those_that_resolve(after, keys, target, alias);
    if params.new_aliases().contains(alias) {
        assert(followed(after, target, 0) == Lookup::Found(target));
        assert(followed(after, alias, 1) == Lookup::Found(target));
        lemma_lookup(after, alias, 1);
    } else {
        let steps = choose|steps: nat| !(#[trigger] followed(db, alias, steps) is Further);
        lemma_still_found(db, params, alias, steps);
        lemma_lookup(after, alias, steps);
    }
}

} // verus!
