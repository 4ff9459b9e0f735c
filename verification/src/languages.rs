//! The registry: one language for each language type that it knows.

use crate::language::Language;
use crate::language_type::{lemma_rank_injective, rank, LanguageType};
use crate::sort::{sorts_stably, Sort};
use crate::stats::{Stats, Totals};
use vstd::prelude::*;

verus! {

/// A language type and the language kept under it.
pub type Entry = (LanguageType, Language);

/// No language type stands twice in the list.
pub open spec fn distinct_keys(entries: Seq<Entry>) -> bool {
    forall|i: int, j: int|
        0 <= i < j < entries.len() ==> (#[trigger] entries[i]).0 != (#[trigger] entries[j]).0
}

/// The entries stand in the order of their language types.
pub open spec fn in_key_order(entries: Seq<Entry>) -> bool {
    forall|i: int, j: int|
        0 <= i < j < entries.len() ==> rank((#[trigger] entries[i]).0) < rank(
            (#[trigger] entries[j]).0,
        )
}

/// In a list in key order no language type stands twice.
pub proof fn lemma_order_is_distinct(entries: Seq<Entry>)
    requires
        in_key_order(entries),
    ensures
        distinct_keys(entries),
{
    assert forall|i: int, j: int| 0 <= i < j < entries.len() implies (#[trigger] entries[i]).0
        != (#[trigger] entries[j]).0 by {
        assert(rank(entries[i].0) < rank(entries[j].0));
    }
}

/// The list holds an entry for `key`.
pub open spec fn has_key(entries: Seq<Entry>, key: LanguageType) -> bool {
    exists|i: int| 0 <= i < entries.len() && (#[trigger] entries[i]).0 == key
}

/// A place at which the list holds `key`.
pub open spec fn key_index(entries: Seq<Entry>, key: LanguageType) -> int {
    choose|i: int| 0 <= i < entries.len() && (#[trigger] entries[i]).0 == key
}

/// The list as a map from language type to language.
pub open spec fn as_map(entries: Seq<Entry>) -> Map<LanguageType, Language> {
    Map::new(
        |key: LanguageType| has_key(entries, key),
        |key: LanguageType| entries[key_index(entries, key)].1,
    )
}

/// `after` is `before` with `gain` added to its totals and `files` put
/// behind its statistics, and is otherwise unchanged.
pub open spec fn gained(before: Language, gain: Totals, files: Seq<Stats>, after: Language) -> bool {
    &&& after.totals() == before.totals().plus(gain)
    &&& after.stats@ == before.stats@ + files
    &&& after == (Language {
        blanks: after.blanks,
        code: after.code,
        comments: after.comments,
        lines: after.lines,
        stats: after.stats,
        ..before
    })
}

/// `after` is `before` with its statistics sorted by `category`.
pub open spec fn sorted_by(category: Sort, before: Language, after: Language) -> bool {
    &&& exists|origin: Seq<int>| sorts_stably(category, before.stats@, after.stats@, origin)
    &&& after == (Language { stats: after.stats, ..before })
}

/// In a list without repeated keys the map holds each entry under its key.
pub proof fn lemma_as_map_at(entries: Seq<Entry>, i: int)
    requires
        distinct_keys(entries),
        0 <= i < entries.len(),
    ensures
        as_map(entries).dom().contains(entries[i].0),
        as_map(entries)[entries[i].0] == entries[i].1,
{
    let key = entries[i].0;
    assert(has_key(entries, key));
    let found = key_index(entries, key);
    assert(found == i) by {
        if found < i {
            assert(entries[found].0 != entries[i].0);
        } else if i < found {
            assert(entries[i].0 != entries[found].0);
        }
    }
}

/// Putting an entry with a new key into the list inserts it into the map.
pub proof fn lemma_as_map_insert(
    entries: Seq<Entry>,
    place: int,
    key: LanguageType,
    language: Language,
)
    requires
        distinct_keys(entries),
        !has_key(entries, key),
        0 <= place <= entries.len(),
    ensures
        distinct_keys(entries.insert(place, (key, language))),
        as_map(entries.insert(place, (key, language))) == as_map(entries).insert(key, language),
{
    let longer = entries.insert(place, (key, language));
    let back = |i: int| if i < place { i } else { i - 1 };
    assert forall|i: int| 0 <= i < longer.len() && i != place implies #[trigger] longer[i]
        == entries[back(i)] by {}
    assert(longer[place] == (key, language));
    assert(distinct_keys(longer)) by {
        assert forall|i: int, j: int| 0 <= i < j < longer.len() implies (#[trigger] longer[i]).0
            != (#[trigger] longer[j]).0 by {
            if i != place && j != place {
                assert(entries[back(i)].0 != entries[back(j)].0);
            } else if i == place {
                assert(entries[back(j)].0 != key);
            } else {
                assert(entries[back(i)].0 != key);
            }
        }
    }
    assert forall|k: LanguageType| as_map(longer).dom().contains(k) == as_map(entries).insert(
        key,
        language,
    ).dom().contains(k) by {
        if has_key(longer, k) {
            let i = key_index(longer, k);
            if i != place {
                assert(entries[back(i)].0 == k);
            }
        }
        if has_key(entries, k) {
            let i = key_index(entries, k);
            let there = if i < place { i } else { i + 1 };
            assert(longer[there].0 == k);
        }
        if k == key {
            assert(longer[place].0 == k);
        }
    }
    assert forall|k: LanguageType| as_map(longer).dom().contains(k) implies as_map(longer)[k]
        == as_map(entries).insert(key, language)[k] by {
        let i = key_index(longer, k);
        lemma_as_map_at(longer, i);
        if i != place {
            assert(entries[back(i)] == longer[i]);
            lemma_as_map_at(entries, back(i));
        }
    }
    assert(as_map(longer) =~= as_map(entries).insert(key, language));
}

/// Replacing the language of an entry replaces it in the map.
pub proof fn lemma_as_map_update(entries: Seq<Entry>, i: int, language: Language)
    requires
        distinct_keys(entries),
        0 <= i < entries.len(),
    ensures
        distinct_keys(entries.update(i, (entries[i].0, language))),
        in_key_order(entries) ==> in_key_order(entries.update(i, (entries[i].0, language))),
        as_map(entries.update(i, (entries[i].0, language))) == as_map(entries).insert(
            entries[i].0,
            language,
        ),
{
    let key = entries[i].0;
    let changed = entries.update(i, (key, language));
    if in_key_order(entries) {
        assert forall|a: int, b: int| 0 <= a < b < changed.len() implies rank(
            (#[trigger] changed[a]).0,
        ) < rank((#[trigger] changed[b]).0) by {
            assert(rank(entries[a].0) < rank(entries[b].0));
        }
    }
    assert(distinct_keys(changed)) by {
        assert forall|a: int, b: int| 0 <= a < b < changed.len() implies (#[trigger] changed[a]).0
            != (#[trigger] changed[b]).0 by {
            assert(entries[a].0 != entries[b].0);
        }
    }
    assert forall|k: LanguageType| as_map(changed).dom().contains(k) == as_map(entries).insert(
        key,
        language,
    ).dom().contains(k) by {
        if has_key(changed, k) {
            let a = key_index(changed, k);
            assert(entries[a].0 == k);
        }
        if has_key(entries, k) {
            let a = key_index(entries, k);
            assert(changed[a].0 == k);
        }
    }
    assert forall|k: LanguageType| as_map(changed).dom().contains(k) implies as_map(changed)[k]
        == as_map(entries).insert(key, language)[k] by {
        let a = key_index(changed, k);
        lemma_as_map_at(changed, a);
        if a != i {
            assert(entries[a] == changed[a]);
            lemma_as_map_at(entries, a);
        }
    }
    assert(as_map(changed) =~= as_map(entries).insert(key, language));
}

/// The languages counted, each under its language type.
#[derive(Debug)]
pub struct Languages {
    entries: Vec<Entry>,
}

impl View for Languages {
    type V = Map<LanguageType, Language>;

    /// The registry as a map from language type to language.
    closed spec fn view(&self) -> Map<LanguageType, Language> {
        as_map(self.entries@)
    }
}

impl Languages {
    /// The entries in the order in which the registry lists them: that of
    /// their language types.
    pub closed spec fn listing(&self) -> Seq<Entry> {
        self.entries@
    }

    /// The entries stand in the order of their language types, so that no
    /// language type has two entries.
    pub closed spec fn wf(&self) -> bool {
        in_key_order(self.entries@)
    }

    /// The listing holds what the map holds, in the order of the language
    /// types: each key once, with its language.
    pub proof fn lemma_listing(&self)
        requires
            self.wf(),
        ensures
            in_key_order(self.listing()),
            distinct_keys(self.listing()),
            self@ == as_map(self.listing()),
            forall|i: int|
                0 <= i < self.listing().len() ==> self@.dom().contains(
                    (#[trigger] self.listing()[i]).0,
                ) && self@[self.listing()[i].0] == self.listing()[i].1,
            forall|key: LanguageType|
                self@.dom().contains(key) ==> has_key(self.listing(), key),
    {
        lemma_order_is_distinct(self.entries@);
        assert forall|i: int| 0 <= i < self.listing().len() implies self@.dom().contains(
            (#[trigger] self.listing()[i]).0,
        ) && self@[self.listing()[i].0] == self.listing()[i].1 by {
            lemma_as_map_at(self.entries@, i);
        }
    }

    /// A registry without entries.
    pub fn empty() -> (languages: Languages)
        ensures
            languages.wf(),
            languages@ == Map::<LanguageType, Language>::empty(),
            languages.listing() == Seq::<Entry>::empty(),
    {
        let languages = Languages { entries: Vec::new() };
        assert(languages@ =~= Map::<LanguageType, Language>::empty());
        languages
    }

    /// The registry of every known language, with nothing counted yet.
    pub fn new() -> (languages: Languages)
        ensures
            languages.wf(),
            forall|key: LanguageType| #[trigger]
                languages@.dom().contains(key) && languages@[key].is_fresh()
                    && languages@[key].tables() == key.tables()
                    && languages@[key].regex.pattern@ == key.pattern(),
    {
        let types = LanguageType::all();
        let mut languages = Languages::empty();
        let mut i: usize = 0;
        while i < types.len()
            invariant
                i <= types@.len(),
                types@.no_duplicates(),
                forall|language: LanguageType| types@.contains(language),
                languages.wf(),
                forall|k: int|
                    0 <= k < i ==> languages@.dom().contains(#[trigger] types@[k])
                        && languages@[types@[k]].is_fresh() && languages@[types@[k]].tables()
                        == types@[k].tables() && languages@[types@[k]].regex.pattern@
                        == types@[k].pattern(),
                forall|key: LanguageType|
                    languages@.dom().contains(key) ==> exists|k: int|
                        0 <= k < i && types@[k] == key,
            decreases types.len() - i,
        {
            let key = types[i];
            languages.insert(key, key.language());
            i += 1;
        }
        proof {
            assert forall|key: LanguageType| #[trigger]
                languages@.dom().contains(key) && languages@[key].is_fresh()
                    && languages@[key].tables() == key.tables()
                    && languages@[key].regex.pattern@ == key.pattern() by {
                assert(types@.contains(key));
                let k = choose|k: int| 0 <= k < types@.len() && types@[k] == key;
                assert(languages@.dom().contains(types@[k]));
            }
        }
        languages
    }

    /// The number of entries.
    pub fn len(&self) -> (count: usize)
        ensures
            count == self.listing().len(),
    {
        self.entries.len()
    }

    /// The entry at place `i` of the listing, if there is one.
    pub fn get_index(&self, i: usize) -> (entry: Option<(LanguageType, &Language)>)
        ensures
            i < self.listing().len() ==> entry == Some(
                (self.listing()[i as int].0, &self.listing()[i as int].1),
            ),
            i >= self.listing().len() ==> entry is None,
    {
        if i < self.entries.len() {
            Some((self.entries[i].0, &self.entries[i].1))
        } else {
            None
        }
    }

    /// The place of `key` in the listing.
    fn position(&self, key: LanguageType) -> (place: Option<usize>)
        ensures
            match place {
                Some(i) => i < self.entries@.len() && self.entries@[i as int].0 == key,
                None => !has_key(self.entries@, key),
            },
    {
        let mut i: usize = 0;
        while i < self.entries.len()
            invariant
                i <= self.entries@.len(),
                forall|k: int| 0 <= k < i ==> (#[trigger] self.entries@[k]).0 != key,
            decreases self.entries.len() - i,
        {
            if self.entries[i].0 == key {
                return Some(i);
            }
            i += 1;
        }
        None
    }

    /// The language kept under `key`, if there is one.
    pub fn get(&self, key: LanguageType) -> (language: Option<&Language>)
        requires
            self.wf(),
        ensures
            self@.dom().contains(key) ==> language == Some(&self@[key]),
            !self@.dom().contains(key) ==> language is None,
    {
        match self.position(key) {
            Some(i) => {
                proof {
                    lemma_order_is_distinct(self.entries@);
                    lemma_as_map_at(self.entries@, i as int);
                }
                Some(&self.entries[i].1)
            },
            None => None,
        }
    }

    /// The language types of the registry, in the order of the listing,
    /// which is their own order, whether or not anything was counted under
    /// them.
    pub fn keys(&self) -> (keys: Vec<LanguageType>)
        ensures
            keys@.len() == self.listing().len(),
            forall|i: int| 0 <= i < keys@.len() ==> keys@[i] == (#[trigger] self.listing()[i]).0,
    {
        let mut keys: Vec<LanguageType> = Vec::new();
        let mut i: usize = 0;
        while i < self.entries.len()
            invariant
                i <= self.entries@.len(),
                keys@.len() == i,
                forall|k: int| 0 <= k < i ==> keys@[k] == (#[trigger] self.entries@[k]).0,
            decreases self.entries.len() - i,
        {
            keys.push(self.entries[i].0);
            i += 1;
        }
        keys
    }

    /// Keeps `language` under `key`, in place of what was kept there.
    pub fn insert(&mut self, key: LanguageType, language: Language)
        requires
            old(self).wf(),
        ensures
            final(self).wf(),
            final(self)@ == old(self)@.insert(key, language),
            old(self)@.dom().contains(key) ==> final(self).listing().len() == old(
                self,
            ).listing().len(),
            !old(self)@.dom().contains(key) ==> final(self).listing().len() == old(
                self,
            ).listing().len() + 1,
    {
        match self.position(key) {
            Some(i) => {
                proof {
                    lemma_order_is_distinct(self.entries@);
                    lemma_as_map_update(self.entries@, i as int, language);
                    lemma_as_map_at(self.entries@, i as int);
                }
                self.entries[i] = (key, language);
            },
            None => {
                self.put_new(key, language);
            },
        }
    }

    /// Keeps `language` under a key that the registry does not hold yet, at
    /// the place that the order of the language types gives it.
    fn put_new(&mut self, key: LanguageType, language: Language)
        requires
            old(self).wf(),
            !has_key(old(self).entries@, key),
        ensures
            final(self).wf(),
            final(self)@ == old(self)@.insert(key, language),
            final(self).entries@.len() == old(self).entries@.len() + 1,
    {
        let ghost before = self.entries@;
        let place_of_key = key.ordinal();
        let mut place: usize = 0;
        while place < self.entries.len() && self.entries[place].0.ordinal() < place_of_key
            invariant
                place <= self.entries@.len(),
                self.entries@ == before,
                place_of_key == rank(key),
                forall|k: int| 0 <= k < place ==> rank((#[trigger] before[k]).0) < rank(key),
            decreases self.entries.len() - place,
        {
            place += 1;
        }
        proof {
            lemma_order_is_distinct(before);
            lemma_as_map_insert(before, place as int, key, language);
            let longer = before.insert(place as int, (key, language));
            assert forall|k: int| place <= k < before.len() implies rank(key) < rank(
                (#[trigger] before[k]).0,
            ) by {
                if rank(before[place as int].0) == rank(key) {
                    lemma_rank_injective(before[place as int].0, key);
                }
                if k > place {
                    assert(rank(before[place as int].0) < rank(before[k].0));
                }
            }
            assert forall|a: int, b: int| 0 <= a < b < longer.len() implies rank(
                (#[trigger] longer[a]).0,
            ) < rank((#[trigger] longer[b]).0) by {
                let from_a = if a < place { a } else { a - 1 };
                let from_b = if b < place { b } else { b - 1 };
                if a != place && b != place {
                    assert(rank(before[from_a].0) < rank(before[from_b].0));
                } else if a == place {
                    assert(longer[b] == before[from_b]);
                } else {
                    assert(longer[a] == before[from_a]);
                }
            }
        }
        self.entries.insert(place, (key, language));
    }

    /// Adds the counts of one file to the language kept under `key`, and
    /// says whether there is such a language. Nothing changes where there is
    /// none.
    pub fn add_stats(&mut self, key: LanguageType, stats: Stats) -> (added: bool)
        requires
            old(self).wf(),
            old(self)@.dom().contains(key) ==> old(self)@[key].totals().plus(
                stats.totals(),
            ).fits(),
        ensures
            final(self).wf(),
            added == old(self)@.dom().contains(key),
            added ==> gained(old(self)@[key], stats.totals(), seq![stats], final(self)@[key])
                && final(self)@ == old(self)@.insert(key, final(self)@[key]),
            !added ==> final(self)@ == old(self)@ && final(self).listing() == old(self).listing(),
    {
        match self.position(key) {
            Some(i) => {
                let ghost before = self.entries@;
                proof {
                    lemma_order_is_distinct(before);
                    lemma_as_map_at(before, i as int);
                }
                self.entries[i].1.add_stats(stats);
                proof {
                    let after = self.entries@[i as int].1;
                    assert(self.entries@ =~= before.update(i as int, (key, after)));
                    lemma_as_map_update(before, i as int, after);
                    lemma_as_map_at(self.entries@, i as int);
                    assert(after.stats@ =~= before[i as int].1.stats@ + seq![stats]);
                }
                true
            },
            None => false,
        }
    }

    /// Sorts the statistics of every language by `category`.
    pub fn sort_by(&mut self, category: Sort)
        requires
            old(self).wf(),
        ensures
            final(self).wf(),
            final(self).listing().len() == old(self).listing().len(),
            forall|i: int|
                0 <= i < final(self).listing().len() ==> (#[trigger] final(self).listing()[i]).0
                    == old(self).listing()[i].0,
            final(self)@.dom() == old(self)@.dom(),
            forall|key: LanguageType|
                old(self)@.dom().contains(key) ==> sorted_by(
                    category,
                    old(self)@[key],
                    #[trigger] final(self)@[key],
                ),
    {
        let ghost before = self.entries@;
        proof {
            lemma_order_is_distinct(before);
        }
        let mut i: usize = 0;
        while i < self.entries.len()
            invariant
                i <= self.entries@.len() == before.len(),
                distinct_keys(before),
                in_key_order(before),
                forall|k: int|
                    0 <= k < before.len() ==> (#[trigger] self.entries@[k]).0 == before[k].0,
                forall|k: int| i <= k < before.len() ==> #[trigger] self.entries@[k] == before[k],
                forall|k: int|
                    0 <= k < i ==> sorted_by(category, before[k].1, (#[trigger] self.entries@[k]).1),
            decreases self.entries.len() - i,
        {
            self.entries[i].1.sort_by(category);
            i += 1;
        }
        proof {
            let after = self.entries@;
            assert(in_key_order(after)) by {
                assert forall|a: int, b: int| 0 <= a < b < after.len() implies rank(
                    (#[trigger] after[a]).0,
                ) < rank((#[trigger] after[b]).0) by {
                    assert(rank(before[a].0) < rank(before[b].0));
                }
            }
            lemma_order_is_distinct(after);
            assert forall|key: LanguageType| as_map(after).dom().contains(key) == as_map(
                before,
            ).dom().contains(key) by {
                if has_key(after, key) {
                    let a = key_index(after, key);
                    assert(before[a].0 == key);
                }
                if has_key(before, key) {
                    let a = key_index(before, key);
                    assert(after[a].0 == key);
                }
            }
            assert(as_map(after).dom() =~= as_map(before).dom());
            assert forall|key: LanguageType| as_map(before).dom().contains(key) implies sorted_by(
                category,
                as_map(before)[key],
                #[trigger] as_map(after)[key],
            ) by {
                let a = key_index(before, key);
                assert(after[a].0 == key);
                lemma_as_map_at(before, a);
                lemma_as_map_at(after, a);
            }
        }
    }

    /// Merges `rhs` into the registry: where both hold a language under one
    /// key, the totals of that of `rhs` are added and the statistics of its
    /// files put behind those that are there; a language that only `rhs`
    /// holds is taken over as it is.
    pub fn add_assign(&mut self, rhs: Languages)
        requires
            old(self).wf(),
            rhs.wf(),
            forall|key: LanguageType|
                old(self)@.dom().contains(key) && rhs@.dom().contains(key) ==> (
                #[trigger] old(self)@[key]).totals().plus(rhs@[key].totals()).fits(),
        ensures
            final(self).wf(),
            final(self)@.dom() == old(self)@.dom().union(rhs@.dom()),
            forall|key: LanguageType|
                old(self)@.dom().contains(key) && !rhs@.dom().contains(key)
                    ==> #[trigger] final(self)@[key] == old(self)@[key],
            forall|key: LanguageType|
                !old(self)@.dom().contains(key) && rhs@.dom().contains(key)
                    ==> #[trigger] final(self)@[key] == rhs@[key],
            forall|key: LanguageType|
                old(self)@.dom().contains(key) && rhs@.dom().contains(key) ==> gained(
                    old(self)@[key],
                    rhs@[key].totals(),
                    rhs@[key].stats@,
                    #[trigger] final(self)@[key],
                ),
    {
        let ghost start = self@;
        let ghost incoming = rhs.entries@;
        let mut rest = rhs.entries;
        let ghost mut taken: int = 0;
        proof {
            lemma_order_is_distinct(incoming);
            assert forall|j: int| 0 <= j < incoming.len() implies rhs@.dom().contains(
                (#[trigger] incoming[j]).0,
            ) && rhs@[incoming[j].0] == incoming[j].1 by {
                lemma_as_map_at(incoming, j);
            }
        }
        while rest.len() > 0
            invariant
                self.wf(),
                distinct_keys(incoming),
                0 <= taken <= incoming.len(),
                rest@.len() == incoming.len() - taken,
                forall|k: int| 0 <= k < rest@.len() ==> rest@[k] == incoming[taken + k],
                forall|j: int|
                    0 <= j < incoming.len() && start.dom().contains((#[trigger] incoming[j]).0)
                        ==> start[incoming[j].0].totals().plus(incoming[j].1.totals()).fits(),
                forall|key: LanguageType|
                    self@.dom().contains(key) <==> start.dom().contains(key) || has_key(
                        incoming.take(taken),
                        key,
                    ),
                forall|key: LanguageType|
                    start.dom().contains(key) && !has_key(incoming.take(taken), key)
                        ==> #[trigger] self@[key] == start[key],
                forall|j: int|
                    0 <= j < taken && !start.dom().contains((#[trigger] incoming[j]).0)
                        ==> self@[incoming[j].0] == incoming[j].1,
                forall|j: int|
                    0 <= j < taken && start.dom().contains((#[trigger] incoming[j]).0) ==> gained(
                        start[incoming[j].0],
                        incoming[j].1.totals(),
                        incoming[j].1.stats@,
                        self@[incoming[j].0],
                    ),
            decreases rest.len(),
        {
            let ghost seen = incoming.take(taken);
            let ghost held = self@;
            let ghost listed = self.entries@;
            let (key, language) = rest.remove(0);
            assert(incoming[taken] == (key, language));
            assert(!has_key(seen, key)) by {
                if has_key(seen, key) {
                    let j = key_index(seen, key);
                    assert(incoming[j].0 != incoming[taken].0);
                }
            }
            match self.position(key) {
                Some(i) => {
                    proof {
                        lemma_order_is_distinct(listed);
                        lemma_as_map_at(listed, i as int);
                        assert(held.dom().contains(key));
                        assert(start.dom().contains(key));
                        assert(held[key] == start[key]);
                    }
                    self.entries[i].1.add_assign(&language);
                    proof {
                        let after = self.entries@[i as int].1;
                        assert(self.entries@ =~= listed.update(i as int, (key, after)));
                        lemma_as_map_update(listed, i as int, after);
                        assert(self@ == held.insert(key, after));
                    }
                },
                None => {
                    self.put_new(key, language);
                },
            }
            proof {
                taken = taken + 1;
                let now = incoming.take(taken);
                assert forall|k: LanguageType| has_key(now, k) <==> has_key(seen, k) || k
                    == key by {
                    if has_key(now, k) {
                        let j = key_index(now, k);
                        if j < taken - 1 {
                            assert(seen[j].0 == k);
                        }
                    }
                    if has_key(seen, k) {
                        let j = key_index(seen, k);
                        assert(now[j].0 == k);
                    }
                    if k == key {
                        assert(now[taken - 1].0 == k);
                    }
                }
                assert forall|j: int| 0 <= j < taken - 1 implies (#[trigger] incoming[j]).0
                    != key by {
                    assert(incoming[j].0 != incoming[taken - 1].0);
                }
            }
        }
        proof {
            assert(incoming.take(taken) =~= incoming);
            assert forall|key: LanguageType| has_key(incoming, key) <==> rhs@.dom().contains(
                key,
            ) by {}
            assert(self@.dom() =~= start.dom().union(rhs@.dom()));
            assert forall|key: LanguageType|
                !start.dom().contains(key) && rhs@.dom().contains(key) implies #[trigger] self@[key]
                == rhs@[key] by {
                let j = key_index(incoming, key);
                assert(incoming[j].0 == key);
            }
            assert forall|key: LanguageType|
                start.dom().contains(key) && rhs@.dom().contains(key) implies gained(
                start[key],
                rhs@[key].totals(),
                rhs@[key].stats@,
                #[trigger] self@[key],
            ) by {
                let j = key_index(incoming, key);
                assert(incoming[j].0 == key);
            }
        }
    }
}

} // verus!
