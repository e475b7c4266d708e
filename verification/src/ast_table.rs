//! The parse cache: for each path the syntax tree of the text last read
//! from it, with the revision that the text had.
//!
//! The cache does no reading of its own. Whoever drives it asks the source
//! provider what `refresh_cache` tells it to ask, and hands the answer back
//! as the next event, until the refresh is done.
//!
//! A file that has gone missing is reported as missing and its entry is
//! kept but not served: `get` gives no module for it until the file is
//! there again and parses.
//!
//! The entries are kept in the order of their paths, so that going
//! through the cache gives the same sequence whatever the order was in
//! which the files were asked for.

use vstd::prelude::*;
use crate::ast::{Module, ModuleView};
use crate::parser::{parse, parse_spec, ParseError};

verus! {

/// The text of a file and the revision it has.
#[derive(Clone, Debug, PartialEq, Eq)]
pub struct SourceFile {
    pub src: String,
    pub revision: usize,
}

/// A failure of the source provider to read a file.
#[derive(Clone, Debug, PartialEq, Eq)]
pub struct StorageError {
    pub message: String,
}

/// Why the cache has no module to give.
#[derive(Clone, Debug, PartialEq, Eq)]
pub enum Error {
    /// The file could not be read.
    Storage(StorageError),
    /// The text of the file is no module.
    Parse(ParseError),
}

/// What the source provider answered when it was asked for a file: the
/// file, `None` if there is no such file, or its failure.
pub type Fetched = Result<Option<SourceFile>, StorageError>;

/// What happened since the last step of a refresh.
#[derive(Debug, PartialEq, Eq)]
pub enum Event {
    /// A module was asked for; nothing has been asked of the provider yet.
    Requested,
    /// The provider said whether the cached revision is still current.
    Validity(bool),
    /// The provider was asked for the file and answered.
    Fetched(Fetched),
}

/// A question to the source provider about the path being refreshed.
#[derive(Clone, Copy, Debug, PartialEq, Eq)]
pub enum Query {
    /// Is `last_revision` still the revision of the file?
    Validate { last_revision: usize },
    /// What is the file now?
    Fetch,
}

/// Where a refresh stands after a step.
#[derive(Debug, PartialEq, Eq)]
pub enum Refresh {
    /// The provider must be asked this, and its answer handed back.
    Ask(Query),
    /// The refresh is over: `Ok(true)` if the cache now holds the current
    /// module, `Ok(false)` if there is no such file.
    Done(Result<bool, Error>),
}

/// The module of a path and the revision of the text it was parsed from.
pub struct Entry {
    module: Module,
    last_revision: usize,
}

/// The mathematical content of an `Entry`.
pub struct EntryView {
    pub module: ModuleView,
    pub last_revision: usize,
}

impl View for Entry {
    type V = EntryView;

    closed spec fn view(&self) -> EntryView {
        EntryView { module: self.module@, last_revision: self.last_revision }
    }
}

/// The bytes of the text of `file`.
pub open spec fn text_bytes(file: SourceFile) -> Seq<u8> {
    vstd::utf8::encode_utf8(file.src@)
}

/// What an answer of the provider to `Fetch` does to the cache, and how
/// the refresh ends. A failure and a missing file leave the cache as it
/// is; a file is parsed, and only if it parses its entry is replaced, by
/// the new module with the revision that came with the text.
pub open spec fn fill_spec(cache: Map<Seq<char>, EntryView>, key: Seq<char>, fetched: Fetched) -> (
    Map<Seq<char>, EntryView>,
    Result<bool, Error>,
) {
    match fetched {
        Err(failure) => (cache, Err(Error::Storage(failure))),
        Ok(None) => (cache, Ok(false)),
        Ok(Some(file)) => match parse_spec(text_bytes(file)) {
            Ok(module) => (
                cache.insert(key, EntryView { module, last_revision: file.revision }),
                Ok(true),
            ),
            Err(error) => (cache, Err(Error::Parse(error))),
        },
    }
}

/// One step of a refresh: the cache after the step, and where the
/// refresh then stands. A path without an entry is fetched; one with an
/// entry is validated first, and fetched only if the entry is stale.
pub open spec fn refresh_spec(cache: Map<Seq<char>, EntryView>, key: Seq<char>, event: Event) -> (
    Map<Seq<char>, EntryView>,
    Refresh,
) {
    match event {
        Event::Requested => if cache.contains_key(key) {
            (cache, Refresh::Ask(Query::Validate { last_revision: cache[key].last_revision }))
        } else {
            (cache, Refresh::Ask(Query::Fetch))
        },
        Event::Validity(valid) => if cache.contains_key(key) && valid {
            (cache, Refresh::Done(Ok(true)))
        } else {
            (cache, Refresh::Ask(Query::Fetch))
        },
        Event::Fetched(fetched) => (
            fill_spec(cache, key, fetched).0,
            Refresh::Done(fill_spec(cache, key, fetched).1),
        ),
    }
}

/// What `get` gives after a refresh that ended with `refreshed`.
pub open spec fn served(
    cache: Map<Seq<char>, EntryView>,
    key: Seq<char>,
    refreshed: Result<bool, Error>,
) -> Result<Option<ModuleView>, Error> {
    match refreshed {
        Err(error) => Err(error),
        Ok(false) => Ok(None),
        Ok(true) => if cache.contains_key(key) {
            Ok(Some(cache[key].module))
        } else {
            Ok(None)
        },
    }
}

/// A whole refresh and the lookup after it, given what the provider
/// would answer: `valid` to the question whether the cached revision is
/// current, `fetched` to the request for the file. An answer that is not
/// asked for plays no part.
pub open spec fn get_spec(
    cache: Map<Seq<char>, EntryView>,
    key: Seq<char>,
    valid: bool,
    fetched: Fetched,
) -> (Map<Seq<char>, EntryView>, Result<Option<ModuleView>, Error>) {
    let asked = match refresh_spec(cache, key, Event::Requested).1 {
        Refresh::Ask(Query::Validate { .. }) => refresh_spec(cache, key, Event::Validity(valid)).1,
        first => first,
    };
    match asked {
        Refresh::Done(refreshed) => (cache, served(cache, key, refreshed)),
        Refresh::Ask(_) => {
            let (filled, refreshed) = fill_spec(cache, key, fetched);
            (filled, served(filled, key, refreshed))
        },
    }
}

/// Whether the bytes of `left` from `from` on come before those of
/// `right` in the order of the dictionary: at the first place where they
/// differ `left` has the lower byte, or `left` ends there and `right`
/// does not.
pub open spec fn bytes_precede(left: Seq<u8>, right: Seq<u8>, from: int) -> bool
    decreases left.len() - from,
{
    if from < 0 || from >= right.len() {
        false
    } else if from >= left.len() {
        true
    } else if left[from] != right[from] {
        left[from] < right[from]
    } else {
        bytes_precede(left, right, from + 1)
    }
}

/// Whether the path `left` comes before the path `right` in the order in
/// which the cache keeps its entries: that of their bytes.
pub open spec fn path_precedes(left: Seq<char>, right: Seq<char>) -> bool {
    bytes_precede(vstd::utf8::encode_utf8(left), vstd::utf8::encode_utf8(right), 0)
}

proof fn lemma_never_precedes_itself(bytes: Seq<u8>, from: int)
    ensures
        !bytes_precede(bytes, bytes, from),
    decreases bytes.len() - from,
{
    if 0 <= from < bytes.len() {
        lemma_never_precedes_itself(bytes, from + 1);
    }
}

proof fn lemma_precedes_is_transitive(a: Seq<u8>, b: Seq<u8>, c: Seq<u8>, from: int)
    requires
        bytes_precede(a, b, from),
        bytes_precede(b, c, from),
    ensures
        bytes_precede(a, c, from),
    decreases c.len() - from,
{
    if from < a.len() && a[from] == b[from] && b[from] == c[from] {
        lemma_precedes_is_transitive(a, b, c, from + 1);
    }
}

/// The order of paths is strict and transitive.
pub proof fn lemma_path_order(a: Seq<char>, b: Seq<char>, c: Seq<char>)
    ensures
        !path_precedes(a, a),
        path_precedes(a, b) && path_precedes(b, c) ==> path_precedes(a, c),
        path_precedes(a, b) ==> !path_precedes(b, a),
{
    let x = vstd::utf8::encode_utf8(a);
    let y = vstd::utf8::encode_utf8(b);
    let z = vstd::utf8::encode_utf8(c);
    lemma_never_precedes_itself(x, 0);
    if path_precedes(a, b) && path_precedes(b, c) {
        lemma_precedes_is_transitive(x, y, z, 0);
    }
    if path_precedes(a, b) && path_precedes(b, a) {
        lemma_precedes_is_transitive(x, y, x, 0);
    }
}

/// How one path stands to another.
#[derive(Clone, Copy, Debug, PartialEq, Eq, Structural)]
enum Order {
    Before,
    Same,
    After,
}

fn order_of(left: &str, right: &str) -> (order: Order)
    ensures
        match order {
            Order::Before => path_precedes(left@, right@),
            Order::Same => left@ == right@,
            Order::After => path_precedes(right@, left@),
        },
{
    let a = left.as_bytes();
    let b = right.as_bytes();
    let mut index: usize = 0;
    while index < a.len() && index < b.len()
        invariant
            index <= a@.len(),
            index <= b@.len(),
            a@ == vstd::utf8::encode_utf8(left@),
            b@ == vstd::utf8::encode_utf8(right@),
            forall|i: int| 0 <= i < index ==> a@[i] == b@[i],
            bytes_precede(a@, b@, index as int) == bytes_precede(a@, b@, 0),
            bytes_precede(b@, a@, index as int) == bytes_precede(b@, a@, 0),
        decreases a@.len() - index,
    {
        if a[index] < b[index] {
            return Order::Before;
        }
        if a[index] > b[index] {
            return Order::After;
        }
        index = index + 1;
    }
    if index < b.len() {
        Order::Before
    } else if index < a.len() {
        Order::After
    } else {
        proof {
            assert(a@ =~= b@);
            vstd::utf8::encode_utf8_decode_utf8(left@);
            vstd::utf8::encode_utf8_decode_utf8(right@);
        }
        Order::Same
    }
}

/// A path with its entry.
struct CacheSlot {
    path: String,
    entry: Entry,
}

/// The slots stand in the strict order of their paths.
spec fn sorted(slots: Seq<CacheSlot>) -> bool {
    forall|i: int, j: int|
        #![trigger slots[i], slots[j]]
        0 <= i < j < slots.len() ==> path_precedes(slots[i].path@, slots[j].path@)
}

/// Some slot is for `key`.
spec fn holds(slots: Seq<CacheSlot>, key: Seq<char>) -> bool {
    exists|i: int| 0 <= i < slots.len() && (#[trigger] slots[i]).path@ == key
}

spec fn view_of(slots: Seq<CacheSlot>) -> Map<Seq<char>, EntryView> {
    Map::new(
        |key: Seq<char>| holds(slots, key),
        |key: Seq<char>|
            slots[choose|i: int| 0 <= i < slots.len() && (#[trigger] slots[i]).path@ == key].entry@,
    )
}

proof fn lemma_slot_is_seen(slots: Seq<CacheSlot>, index: int)
    requires
        sorted(slots),
        0 <= index < slots.len(),
    ensures
        view_of(slots).contains_key(slots[index].path@),
        view_of(slots)[slots[index].path@] == slots[index].entry@,
{
    let key = slots[index].path@;
    let chosen = choose|i: int| 0 <= i < slots.len() && (#[trigger] slots[i]).path@ == key;
    lemma_path_order(key, key, key);
    if chosen < index {
        assert(path_precedes(slots[chosen].path@, slots[index].path@));
    } else if index < chosen {
        assert(path_precedes(slots[index].path@, slots[chosen].path@));
    }
}

proof fn lemma_insert_is_seen(before: Seq<CacheSlot>, pos: int, slot: CacheSlot)
    requires
        sorted(before),
        0 <= pos <= before.len(),
        sorted(before.insert(pos, slot)),
    ensures
        view_of(before.insert(pos, slot)) == view_of(before).insert(slot.path@, slot.entry@),
{
    let after = before.insert(pos, slot);
    let expected = view_of(before).insert(slot.path@, slot.entry@);
    assert(after[pos] == slot);
    lemma_slot_is_seen(after, pos);
    assert forall|key: Seq<char>| view_of(after).contains_key(key) implies expected.contains_key(
        key,
    ) && expected[key] == view_of(after)[key] by {
        let i = choose|i: int| 0 <= i < after.len() && (#[trigger] after[i]).path@ == key;
        lemma_slot_is_seen(after, i);
        if i < pos {
            assert(after[i] == before[i]);
            lemma_slot_is_seen(before, i);
        } else if i > pos {
            assert(after[i] == before[i - 1]);
            lemma_slot_is_seen(before, i - 1);
        }
    }
    assert forall|key: Seq<char>| expected.contains_key(key) implies view_of(after).contains_key(
        key,
    ) by {
        if key != slot.path@ {
            let i = choose|i: int| 0 <= i < before.len() && (#[trigger] before[i]).path@ == key;
            if i < pos {
                assert(after[i] == before[i]);
            } else {
                assert(after[i + 1] == before[i]);
            }
        }
    }
    assert(view_of(after) =~= expected);
}

proof fn lemma_update_is_seen(before: Seq<CacheSlot>, pos: int, slot: CacheSlot)
    requires
        sorted(before),
        0 <= pos < before.len(),
        before[pos].path@ == slot.path@,
    ensures
        sorted(before.update(pos, slot)),
        view_of(before.update(pos, slot)) == view_of(before).insert(slot.path@, slot.entry@),
{
    let after = before.update(pos, slot);
    let expected = view_of(before).insert(slot.path@, slot.entry@);
    assert forall|i: int, j: int|
        #![trigger after[i], after[j]]
        0 <= i < j < after.len() implies path_precedes(after[i].path@, after[j].path@) by {
        assert(path_precedes(before[i].path@, before[j].path@));
    }
    lemma_slot_is_seen(after, pos);
    lemma_slot_is_seen(before, pos);
    assert forall|key: Seq<char>| view_of(after).contains_key(key) implies expected.contains_key(
        key,
    ) && expected[key] == view_of(after)[key] by {
        let i = choose|i: int| 0 <= i < after.len() && (#[trigger] after[i]).path@ == key;
        lemma_slot_is_seen(after, i);
        if i != pos {
            assert(after[i] == before[i]);
            lemma_slot_is_seen(before, i);
        }
    }
    assert forall|key: Seq<char>| expected.contains_key(key) implies view_of(after).contains_key(
        key,
    ) by {
        if key != slot.path@ {
            let i = choose|i: int| 0 <= i < before.len() && (#[trigger] before[i]).path@ == key;
            assert(after[i].path@ == before[i].path@);
        }
    }
    assert(view_of(after) =~= expected);
}

/// The cache of parsed modules, by path, in the order of the paths.
pub struct AstTable {
    slots: Vec<CacheSlot>,
}

impl View for AstTable {
    type V = Map<Seq<char>, EntryView>;

    closed spec fn view(&self) -> Map<Seq<char>, EntryView> {
        view_of(self.slots@)
    }
}

impl AstTable {
    #[verifier::type_invariant]
    spec fn in_order(self) -> bool {
        sorted(self.slots@)
    }

    /// An empty cache.
    pub fn new() -> (table: AstTable)
        ensures
            table@ == Map::<Seq<char>, EntryView>::empty(),
    {
        let table = AstTable { slots: Vec::new() };
        assert(table@ =~= Map::<Seq<char>, EntryView>::empty());
        table
    }

    /// Where `key` stands among the slots, and whether its slot is there.
    fn locate(&self, key: &str) -> (place: (usize, bool))
        ensures
            place.0 <= self.slots@.len(),
            place.1 == self@.contains_key(key@),
            place.1 ==> place.0 < self.slots@.len() && self.slots@[place.0 as int].path@ == key@
                && self@[key@] == self.slots@[place.0 as int].entry@,
            !place.1 ==> forall|i: int|
                0 <= i < self.slots@.len() ==> (if i < place.0 {
                    path_precedes((#[trigger] self.slots@[i]).path@, key@)
                } else {
                    path_precedes(key@, self.slots@[i].path@)
                }),
    {
        proof {
            use_type_invariant(self);
        }
        let mut pos: usize = 0;
        while pos < self.slots.len()
            invariant
                pos <= self.slots@.len(),
                sorted(self.slots@),
                forall|i: int|
                    0 <= i < pos ==> path_precedes((#[trigger] self.slots@[i]).path@, key@),
            decreases self.slots@.len() - pos,
        {
            match order_of(self.slots[pos].path.as_str(), key) {
                Order::Before => {},
                Order::Same => {
                    proof {
                        lemma_slot_is_seen(self.slots@, pos as int);
                    }
                    return (pos, true);
                },
                Order::After => {
                    proof {
                        let slots = self.slots@;
                        assert forall|i: int| 0 <= i < slots.len() implies (if i < pos {
                            path_precedes((#[trigger] slots[i]).path@, key@)
                        } else {
                            path_precedes(key@, slots[i].path@)
                        }) by {
                            if i > pos {
                                assert(path_precedes(slots[pos as int].path@, slots[i].path@));
                                lemma_path_order(key@, slots[pos as int].path@, slots[i].path@);
                            }
                        }
                        self.lemma_absent(key@, pos as int);
                    }
                    return (pos, false);
                },
            }
            pos = pos + 1;
        }
        proof {
            self.lemma_absent(key@, pos as int);
        }
        (pos, false)
    }

    proof fn lemma_absent(self, key: Seq<char>, pos: int)
        requires
            forall|i: int|
                0 <= i < self.slots@.len() ==> (if i < pos {
                    path_precedes((#[trigger] self.slots@[i]).path@, key)
                } else {
                    path_precedes(key, self.slots@[i].path@)
                }),
        ensures
            !self@.contains_key(key),
    {
        if holds(self.slots@, key) {
            let i = choose|i: int|
                0 <= i < self.slots@.len() && (#[trigger] self.slots@[i]).path@ == key;
            lemma_path_order(key, key, key);
        }
    }

    /// The paths that have an entry, in their order.
    pub fn paths(&self) -> (paths: Vec<String>)
        ensures
            forall|key: Seq<char>|
                self@.contains_key(key) <==> exists|i: int|
                    0 <= i < paths@.len() && (#[trigger] paths@[i])@ == key,
            forall|i: int, j: int|
                #![trigger paths@[i], paths@[j]]
                0 <= i < j < paths@.len() ==> path_precedes(paths@[i]@, paths@[j]@),
    {
        proof {
            use_type_invariant(self);
        }
        let mut paths: Vec<String> = Vec::new();
        let mut index: usize = 0;
        while index < self.slots.len()
            invariant
                index <= self.slots@.len(),
                paths@.len() == index,
                forall|i: int| 0 <= i < index ==> (#[trigger] paths@[i])@ == self.slots@[i].path@,
            decreases self.slots@.len() - index,
        {
            paths.push(self.slots[index].path.clone());
            index = index + 1;
        }
        proof {
            let slots = self.slots@;
            assert forall|key: Seq<char>| self@.contains_key(key) implies exists|i: int|
                0 <= i < paths@.len() && (#[trigger] paths@[i])@ == key by {
                let i = choose|i: int| 0 <= i < slots.len() && (#[trigger] slots[i]).path@ == key;
                assert(paths@[i]@ == key);
            }
            assert forall|key: Seq<char>|
                (exists|i: int|
                    0 <= i < paths@.len() && (#[trigger] paths@[i])@ == key) implies self@.contains_key(
                key,
            ) by {
                let i = choose|i: int| 0 <= i < paths@.len() && (#[trigger] paths@[i])@ == key;
                assert(slots[i].path@ == key);
            }
            assert forall|i: int, j: int|
                #![trigger paths@[i], paths@[j]]
                0 <= i < j < paths@.len() implies path_precedes(paths@[i]@, paths@[j]@) by {
                assert(path_precedes(slots[i].path@, slots[j].path@));
            }
        }
        paths
    }

    /// The revision of the text that the module cached for `key` was
    /// parsed from, if a module is cached for it.
    pub fn last_revision(&self, key: &str) -> (revision: Option<usize>)
        ensures
            revision == (if self@.contains_key(key@) {
                Some(self@[key@].last_revision)
            } else {
                None
            }),
    {
        let (pos, found) = self.locate(key);
        if found {
            Some(self.slots[pos].entry.last_revision)
        } else {
            None
        }
    }

    /// The module for `key` after a refresh that ended with `refreshed`:
    /// the error of the refresh, nothing for a file that is missing, and
    /// else the cached module.
    pub fn get(&self, key: &str, refreshed: Result<bool, Error>) -> (found: Result<
        Option<&Module>,
        Error,
    >)
        ensures
            match found {
                Ok(Some(module)) => served(self@, key@, refreshed) == Ok::<
                    Option<ModuleView>,
                    Error,
                >(Some(module@)),
                Ok(None) => served(self@, key@, refreshed) == Ok::<Option<ModuleView>, Error>(
                    None,
                ),
                Err(error) => served(self@, key@, refreshed) == Err::<Option<ModuleView>, Error>(
                    error,
                ),
            },
    {
        match refreshed {
            Err(error) => Err(error),
            Ok(false) => Ok(None),
            Ok(true) => {
                let (pos, found) = self.locate(key);
                if found {
                    Ok(Some(&self.slots[pos].entry.module))
                } else {
                    Ok(None)
                }
            },
        }
    }

    /// Makes one step of the refresh of `key`: decides from the cache and
    /// from `event` what the provider is to be asked next, or, once the
    /// provider has answered a fetch, fills the cache and ends the refresh.
    pub fn refresh_cache(&mut self, key: &str, event: Event) -> (refresh: Refresh)
        ensures
            (final(self)@, refresh) == refresh_spec(old(self)@, key@, event),
    {
        match event {
            Event::Requested => match self.last_revision(key) {
                Some(last_revision) => Refresh::Ask(Query::Validate { last_revision }),
                None => Refresh::Ask(Query::Fetch),
            },
            Event::Validity(valid) => {
                if valid && self.locate(key).1 {
                    Refresh::Done(Ok(true))
                } else {
                    Refresh::Ask(Query::Fetch)
                }
            },
            Event::Fetched(fetched) => Refresh::Done(fill_cache(self, key, fetched)),
        }
    }
}

/// Takes the provider's answer to a fetch of `key` into the cache: a file
/// that parses replaces the entry of `key` whole; anything else leaves the
/// cache as it is and is reported.
pub fn fill_cache(table: &mut AstTable, key: &str, fetched: Fetched) -> (filled: Result<bool, Error>)
    ensures
        (final(table)@, filled) == fill_spec(old(table)@, key@, fetched),
{
    let file = match fetched {
        Err(failure) => {
            return Err(Error::Storage(failure));
        },
        Ok(None) => {
            return Ok(false);
        },
        Ok(Some(file)) => file,
    };
    let module = match parse(file.src.as_str()) {
        Err(error) => {
            return Err(Error::Parse(error));
        },
        Ok(module) => module,
    };
    proof {
        use_type_invariant(&*table);
    }
    let (pos, found) = table.locate(key);
    let slot = CacheSlot { path: key.to_owned(), entry: Entry { module, last_revision: file.revision } };
    let mut slots = Vec::new();
    std::mem::swap(&mut slots, &mut table.slots);
    let ghost before = slots@;
    if found {
        proof {
            lemma_update_is_seen(before, pos as int, slot);
        }
        slots.set(pos, slot);
    } else {
        proof {
            let after = before.insert(pos as int, slot);
            assert forall|i: int, j: int|
                #![trigger after[i], after[j]]
                0 <= i < j < after.len() implies path_precedes(after[i].path@, after[j].path@) by {
                if i < pos && j > pos {
                    assert(path_precedes(before[i].path@, before[j - 1].path@));
                } else if i < pos && j < pos {
                    assert(path_precedes(before[i].path@, before[j].path@));
                } else if i > pos {
                    assert(path_precedes(before[i - 1].path@, before[j - 1].path@));
                } else if i < pos {
                    assert(path_precedes(before[i].path@, key@));
                } else {
                    assert(path_precedes(key@, before[j - 1].path@));
                }
            }
            lemma_insert_is_seen(before, pos as int, slot);
        }
        slots.insert(pos, slot);
    }
    table.slots = slots;
    Ok(true)
}

/// An entry that the provider calls current is served as it is: the cache
/// does not change and the module is the cached one, whatever a fetch
/// would have brought. So of two lookups of an unchanged file the second
/// parses nothing and gives the module of the first.
pub proof fn lemma_valid_entry_is_served(
    cache: Map<Seq<char>, EntryView>,
    key: Seq<char>,
    fetched: Fetched,
)
    requires
        cache.contains_key(key),
    ensures
        refresh_spec(cache, key, Event::Requested) == (
            cache,
            Refresh::Ask(Query::Validate { last_revision: cache[key].last_revision }),
        ),
        refresh_spec(cache, key, Event::Validity(true)) == (cache, Refresh::Done(Ok(true))),
        get_spec(cache, key, true, fetched) == (
            cache,
            Ok::<Option<ModuleView>, Error>(Some(cache[key].module)),
        ),
{
}

/// A lookup that gave a module leaves a cache from which the next lookup
/// of the unchanged file gives the same module, and leaves it the same.
pub proof fn lemma_get_is_idempotent(
    cache: Map<Seq<char>, EntryView>,
    key: Seq<char>,
    valid: bool,
    fetched: Fetched,
    again: Fetched,
)
    requires
        get_spec(cache, key, valid, fetched).1 matches Ok(Some(_)),
    ensures
        get_spec(get_spec(cache, key, valid, fetched).0, key, true, again) == get_spec(
            cache,
            key,
            valid,
            fetched,
        ),
{
}

/// Once the provider calls an entry stale, the file is fetched again; if
/// it parses, the lookup gives the new module and the entry holds it with
/// the revision that came with the new text, and no other entry changes.
pub proof fn lemma_stale_entry_is_replaced(
    cache: Map<Seq<char>, EntryView>,
    key: Seq<char>,
    file: SourceFile,
)
    requires
        cache.contains_key(key),
        parse_spec(text_bytes(file)) is Ok,
    ensures
        ({
            let module = parse_spec(text_bytes(file)).unwrap();
            let (after, found) = get_spec(cache, key, false, Ok(Some(file)));
            &&& found == Ok::<Option<ModuleView>, Error>(Some(module))
            &&& after == cache.insert(key, EntryView { module, last_revision: file.revision })
            &&& after[key].last_revision == file.revision
        }),
{
}

/// A path that the provider has no file for gives no module, and the
/// lookup leaves the cache as it is.
pub proof fn lemma_missing_file_gives_none(
    cache: Map<Seq<char>, EntryView>,
    key: Seq<char>,
    valid: bool,
)
    requires
        cache.contains_key(key) ==> !valid,
    ensures
        get_spec(cache, key, valid, Ok(None)) == (cache, Ok::<Option<ModuleView>, Error>(None)),
{
}

/// A fetch that fails, or a text that does not parse, is reported and
/// changes nothing: no failure is cached.
pub proof fn lemma_failure_is_not_cached(
    cache: Map<Seq<char>, EntryView>,
    key: Seq<char>,
    fetched: Fetched,
)
    requires
        fill_spec(cache, key, fetched).1 is Err,
    ensures
        fill_spec(cache, key, fetched).0 == cache,
        refresh_spec(cache, key, Event::Fetched(fetched)).0 == cache,
{
}

} // verus!
