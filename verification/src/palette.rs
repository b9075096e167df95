//! The palette: block names, each with the small number that stands for it in
//! the packed grid. A name gets the next free id the first time it is seen
//! and keeps it.

use crate::nbt::{compound_entries, compound_insert, tag_int, TagValue};
use quartz_nbt::NbtCompound;
use vstd::prelude::*;

verus! {

/// The most names a palette holds: the document stores an id as a signed
/// 32-bit integer, so that the largest id is one less than this.
pub const MAX_PALETTE: usize = 0x8000_0000;

/// The palette after `name` was asked for: unchanged where it holds the name,
/// else with the name behind the others.
pub open spec fn intern(names: Seq<Seq<char>>, name: Seq<char>) -> Seq<Seq<char>> {
    if names.contains(name) {
        names
    } else {
        names.push(name)
    }
}

/// The palette that asking for each of `names` in turn builds up from
/// nothing: the distinct names in the order of their first occurrence.
pub open spec fn interned(names: Seq<Seq<char>>) -> Seq<Seq<char>>
    decreases names.len(),
{
    if names.len() == 0 {
        Seq::empty()
    } else {
        intern(interned(names.drop_last()), names.last())
    }
}

/// The entries that a palette writes into the document: under each name its
/// id, which is the name's place in the palette.
pub open spec fn palette_entries(names: Seq<Seq<char>>) -> Map<Seq<char>, TagValue> {
    Map::new(
        |name: Seq<char>| names.contains(name),
        |name: Seq<char>| TagValue::Int(names.index_of(name) as i32),
    )
}

/// Block names and their ids. The id of a name is its place in the order in
/// which the names were first seen, counted from zero.
#[derive(Debug)]
pub struct Palette {
    names: Vec<String>,
}

impl Clone for Palette {
    fn clone(&self) -> (copy: Self)
        ensures
            copy@ == self@,
    {
        proof {
            use_type_invariant(self);
        }
        let mut names: Vec<String> = Vec::new();
        let mut i: usize = 0;
        while i < self.names.len()
            invariant
                i <= self.names.len(),
                names@.map_values(|name: String| name@) == self@.take(i as int),
                self@ == self.names@.map_values(|name: String| name@),
            decreases self.names.len() - i,
        {
            let ghost before = names@.map_values(|name: String| name@);
            names.push(self.names[i].clone());
            assert(names@.map_values(|name: String| name@) =~= before.push(self@[i as int]));
            assert(self@.take(i + 1) =~= self@.take(i as int).push(self@[i as int]));
            i += 1;
        }
        assert(self@.take(i as int) =~= self@);
        Palette { names }
    }
}

impl View for Palette {
    type V = Seq<Seq<char>>;

    /// The names, each at the place that is its id.
    closed spec fn view(&self) -> Seq<Seq<char>> {
        self.names@.map_values(|name: String| name@)
    }
}

impl Palette {
    /// No name stands twice, and every id fits the document's integers.
    #[verifier::type_invariant]
    pub open spec fn well_formed(&self) -> bool {
        self@.no_duplicates() && self@.len() <= MAX_PALETTE
    }

    /// A palette without names.
    pub fn new() -> (palette: Palette)
        ensures
            palette@ == Seq::<Seq<char>>::empty(),
    {
        let palette = Palette { names: Vec::new() };
        assert(palette@ =~= Seq::<Seq<char>>::empty());
        palette
    }

    /// The number of names.
    pub fn len(&self) -> (len: usize)
        ensures
            len == self@.len(),
            len <= MAX_PALETTE,
    {
        proof {
            use_type_invariant(self);
        }
        self.names.len()
    }

    /// Whether the palette holds `name`.
    pub fn contains(&self, name: &str) -> (found: bool)
        ensures
            found == self@.contains(name@),
    {
        self.get_id(name).is_some()
    }

    /// The id of `name`, or `None` where the palette does not hold it.
    pub fn get_id(&self, name: &str) -> (id: Option<u32>)
        ensures
            match id {
                Some(i) => i < self@.len() && self@[i as int] == name@ && i == self@.index_of(
                    name@,
                ),
                None => !self@.contains(name@),
            },
            self@.no_duplicates(),
    {
        proof {
            use_type_invariant(self);
        }
        let wanted: String = name.to_owned();
        let mut i: usize = 0;
        while i < self.names.len()
            invariant
                i <= self.names.len(),
                self.names.len() <= MAX_PALETTE,
                wanted@ == name@,
                self@ == self.names@.map_values(|name: String| name@),
                self@.no_duplicates(),
                forall|j: int| 0 <= j < i ==> self@[j] != name@,
            decreases self.names.len() - i,
        {
            if self.names[i] == wanted {
                proof {
                    lemma_index_of_place(self@, i as int);
                }
                return Some(i as u32);
            }
            i += 1;
        }
        None
    }

    /// The id of `name`, which joins the palette under the next free id
    /// where the palette does not hold it yet. Every name that the palette
    /// held keeps its id.
    pub fn get_id_or_insert(&mut self, name: &str) -> (id: u32)
        requires
            old(self)@.contains(name@) || old(self)@.len() < MAX_PALETTE,
        ensures
            final(self)@ == intern(old(self)@, name@),
            id < final(self)@.len(),
            final(self)@[id as int] == name@,
            id == final(self)@.index_of(name@),
            old(self)@.contains(name@) ==> id == old(self)@.index_of(name@),
            !old(self)@.contains(name@) ==> id == old(self)@.len(),
            old(self)@.no_duplicates(),
            final(self)@.no_duplicates(),
            forall|other: Seq<char>| #[trigger]
                old(self)@.contains(other) ==> final(self)@.contains(other)
                    && final(self)@.index_of(other) == old(self)@.index_of(other),
    {
        proof {
            use_type_invariant(&*self);
            lemma_intern_keeps_all(self@, name@);
        }
        match self.get_id(name) {
            Some(id) => id,
            None => {
                let mut taken = Palette::new();
                std::mem::swap(self, &mut taken);
                let Palette { mut names } = taken;
                let id: u32 = names.len() as u32;
                let ghost before = names@.map_values(|name: String| name@);
                names.push(name.to_owned());
                proof {
                    let after = names@.map_values(|name: String| name@);
                    assert(after =~= before.push(name@));
                    assert forall|i: int, j: int|
                        0 <= i < after.len() && 0 <= j < after.len() && i != j implies after[i]
                        != after[j] by {
                        if i < before.len() && j < before.len() {
                            assert(before[i] != before[j]);
                        } else if i < before.len() {
                            assert(before.contains(before[i]));
                        } else {
                            assert(before.contains(before[j]));
                        }
                    }
                }
                *self = Palette { names };
                proof {
                    lemma_index_of_place(self@, id as int);
                }
                id
            },
        }
    }

    /// The palette as the document holds it: under each name its id.
    pub fn to_nbt(&self) -> (compound: NbtCompound)
        ensures
            compound_entries(compound) == palette_entries(self@),
    {
        proof {
            use_type_invariant(self);
        }
        let mut compound = NbtCompound::new();
        let mut i: usize = 0;
        assert(compound_entries(compound) =~= palette_entries(self@.take(0)));
        while i < self.names.len()
            invariant
                i <= self.names.len(),
                self.names.len() <= MAX_PALETTE,
                self@ == self.names@.map_values(|name: String| name@),
                self@.no_duplicates(),
                compound_entries(compound) == palette_entries(self@.take(i as int)),
            decreases self.names.len() - i,
        {
            proof {
                lemma_palette_entries_step(self@, i as int);
            }
            compound_insert(&mut compound, self.names[i].as_str(), tag_int(i as i32));
            i += 1;
        }
        assert(self@.take(i as int) =~= self@);
        compound
    }

    /// The palette as the document holds it: under each name its id.
    pub fn into_nbt(self) -> (compound: NbtCompound)
        ensures
            compound_entries(compound) == palette_entries(self@),
    {
        self.to_nbt()
    }
}

/// In a palette without a repeated name, the name at a place has that place
/// as its index.
pub proof fn lemma_index_of_place(names: Seq<Seq<char>>, i: int)
    requires
        names.no_duplicates(),
        0 <= i < names.len(),
    ensures
        names.contains(names[i]),
        names.index_of(names[i]) == i,
{
}

/// Writing the name at place `i` under its id extends the entries of the
/// names before it to those of the names up to it.
proof fn lemma_palette_entries_step(names: Seq<Seq<char>>, i: int)
    requires
        names.no_duplicates(),
        0 <= i < names.len(),
        names.len() <= MAX_PALETTE,
    ensures
        palette_entries(names.take(i + 1)) == palette_entries(names.take(i)).insert(
            names[i],
            TagValue::Int(i as i32),
        ),
{
    let before = names.take(i);
    let after = names.take(i + 1);
    assert(after =~= before.push(names[i]));
    assert(after.no_duplicates());
    assert(before.no_duplicates());
    let lhs = palette_entries(after);
    let rhs = palette_entries(before).insert(names[i], TagValue::Int(i as i32));
    assert forall|name: Seq<char>| lhs.dom().contains(name) <==> rhs.dom().contains(name) by {
        if before.contains(name) {
            let j = before.index_of(name);
            assert(after[j] == name);
        }
        if after.contains(name) {
            let j = after.index_of(name);
            if j < i {
                assert(before[j] == name);
            }
        }
        assert(after[i] == names[i]);
    }
    assert forall|name: Seq<char>| lhs.dom().contains(name) implies lhs[name] == rhs[name] by {
        let j = after.index_of(name);
        if j < i {
            assert(before[j] == name);
            lemma_index_of_place(before, j);
        } else {
            lemma_index_of_place(after, i);
        }
    }
    assert(lhs =~= rhs);
}

/// Asking for a name a second time changes nothing: the palette does not
/// grow again, and the name keeps its id.
pub proof fn lemma_intern_idempotent(names: Seq<Seq<char>>, name: Seq<char>)
    requires
        names.no_duplicates(),
    ensures
        intern(names, name).no_duplicates(),
        intern(names, name).contains(name),
        intern(intern(names, name), name) == intern(names, name),
        names.contains(name) ==> intern(names, name).index_of(name) == names.index_of(name),
        !names.contains(name) ==> intern(names, name).index_of(name) == names.len(),
{
    let grown = intern(names, name);
    if !names.contains(name) {
        assert(grown[names.len() as int] == name);
        assert forall|i: int, j: int|
            0 <= i < grown.len() && 0 <= j < grown.len() && i != j implies grown[i]
            != grown[j] by {
            if i < names.len() && j < names.len() {
                assert(names[i] != names[j]);
            } else if i < names.len() {
                assert(names.contains(names[i]));
            } else {
                assert(names.contains(names[j]));
            }
        }
        lemma_index_of_place(grown, names.len() as int);
    }
}

/// A name that the palette held keeps its id whatever name is asked for
/// next: ids are handed out once.
pub proof fn lemma_intern_keeps_ids(names: Seq<Seq<char>>, name: Seq<char>, i: int)
    requires
        0 <= i < names.len(),
    ensures
        intern(names, name).len() >= names.len(),
        intern(names, name)[i] == names[i],
{
}

/// The palette after a run of requests depends on the names asked for and
/// their order alone: each request extends the palette of those before it
/// as [`Palette::get_id_or_insert`] does, so two runs over the same names
/// give every name the same id.
pub proof fn lemma_interned_step(names: Seq<Seq<char>>, name: Seq<char>)
    ensures
        interned(names.push(name)) == intern(interned(names), name),
{
    assert(names.push(name).drop_last() =~= names);
}

/// The palette of a run of requests holds every name asked for, and none
/// twice: the ids are the numbers from zero up to the number of distinct
/// names, without a gap.
pub proof fn lemma_interned_holds(names: Seq<Seq<char>>)
    ensures
        interned(names).no_duplicates(),
        interned(names).len() <= names.len(),
        forall|i: int| 0 <= i < names.len() ==> interned(names).contains(#[trigger] names[i]),
        forall|i: int|
            0 <= i < interned(names).len() ==> names.contains(#[trigger] interned(names)[i]),
    decreases names.len(),
{
    if names.len() > 0 {
        let before = names.drop_last();
        let palette = interned(before);
        lemma_interned_holds(before);
        lemma_intern_idempotent(palette, names.last());
        let grown = interned(names);
        assert forall|i: int| 0 <= i < names.len() implies grown.contains(#[trigger] names[i]) by {
            if i < before.len() {
                assert(before[i] == names[i]);
                let at = palette.index_of(names[i]);
                assert(grown[at] == names[i]);
            }
        }
        assert forall|i: int| 0 <= i < grown.len() implies names.contains(#[trigger] grown[i]) by {
            if i < palette.len() {
                let at = before.index_of(palette[i]);
                assert(names[at] == palette[i]);
            } else {
                assert(names[names.len() - 1] == grown[i]);
            }
        }
    }
}

/// The document holds under each name of the palette the id of the name,
/// and holds no other name.
pub proof fn lemma_palette_entry(names: Seq<Seq<char>>, i: int)
    requires
        names.no_duplicates(),
        0 <= i < names.len() <= MAX_PALETTE,
    ensures
        palette_entries(names).dom().contains(names[i]),
        palette_entries(names)[names[i]] == TagValue::Int(i as i32),
        forall|name: Seq<char>| #[trigger]
            palette_entries(names).dom().contains(name) <==> names.contains(name),
{
    lemma_index_of_place(names, i);
}

/// The palette of a run of requests starts with the palette of any part of
/// the run from its start: requests that follow add names behind and move
/// none.
pub proof fn lemma_interned_extends(names: Seq<Seq<char>>, k: int)
    requires
        0 <= k <= names.len(),
    ensures
        interned(names.take(k)).len() <= interned(names).len(),
        forall|j: int|
            0 <= j < interned(names.take(k)).len() ==> #[trigger] interned(names)[j] == interned(
                names.take(k),
            )[j],
    decreases names.len(),
{
    if k == names.len() {
        assert(names.take(k) =~= names);
    } else {
        assert(names.drop_last().take(k) =~= names.take(k));
        lemma_interned_extends(names.drop_last(), k);
    }
}

/// A name keeps its id for good: whatever names are asked for after it, in
/// whatever number, it stands where it stood.
pub proof fn lemma_id_kept(names: Seq<Seq<char>>, more: Seq<Seq<char>>, name: Seq<char>)
    requires
        interned(names).contains(name),
    ensures
        interned(names + more).contains(name),
        interned(names + more).index_of(name) == interned(names).index_of(name),
{
    let all = names + more;
    assert(all.take(names.len() as int) =~= names);
    lemma_interned_extends(all, names.len() as int);
    lemma_interned_holds(all);
    let at = interned(names).index_of(name);
    assert(interned(all)[at] == name);
    lemma_index_of_place(interned(all), at);
}

/// The id that the request at place `i` of a run gives is fixed by the
/// names asked for up to it: it is the id that the name has in the palette
/// of the whole run, and for a name not asked for before it is the number
/// of distinct names asked for before.
pub proof fn lemma_first_seen_id(names: Seq<Seq<char>>, i: int)
    requires
        0 <= i < names.len(),
    ensures
        interned(names.take(i + 1)).contains(names[i]),
        interned(names).index_of(names[i]) == interned(names.take(i + 1)).index_of(names[i]),
        interned(names.take(i)).len() == names.take(i).to_set().len(),
        !names.take(i).contains(names[i]) ==> interned(names.take(i + 1)).index_of(names[i])
            == names.take(i).to_set().len(),
{
    let before = names.take(i);
    let upto = names.take(i + 1);
    assert(upto.drop_last() =~= before);
    assert(upto.last() == names[i]);
    lemma_interned_holds(before);
    lemma_interned_holds(upto);
    lemma_intern_idempotent(interned(before), names[i]);
    assert(upto[i] == names[i]);
    assert(names =~= upto + names.skip(i + 1));
    lemma_id_kept(upto, names.skip(i + 1), names[i]);
    interned(before).unique_seq_to_set();
    assert(interned(before).to_set() =~= before.to_set()) by {
        assert forall|name: Seq<char>| interned(before).contains(name) <==> before.contains(
            name,
        ) by {
            if interned(before).contains(name) {
                let j = interned(before).index_of(name);
                assert(before.contains(interned(before)[j]));
            }
            if before.contains(name) {
                let j = before.index_of(name);
                assert(interned(before).contains(before[j]));
            }
        }
    }
    if !before.contains(names[i]) {
        if interned(before).contains(names[i]) {
            let j = interned(before).index_of(names[i]);
            assert(before.contains(interned(before)[j]));
        }
    }
}

/// Every name of a palette is held, under the id that it had, after
/// another name was asked for.
pub proof fn lemma_intern_keeps_all(names: Seq<Seq<char>>, name: Seq<char>)
    requires
        names.no_duplicates(),
    ensures
        forall|other: Seq<char>| #[trigger]
            names.contains(other) ==> intern(names, name).contains(other) && intern(
                names,
                name,
            ).index_of(other) == names.index_of(other),
{
    let grown = intern(names, name);
    lemma_intern_idempotent(names, name);
    assert forall|other: Seq<char>| #[trigger] names.contains(other) implies grown.contains(other)
        && grown.index_of(other) == names.index_of(other) by {
        let at = names.index_of(other);
        assert(grown[at] == other);
        lemma_index_of_place(grown, at);
    }
}

} // verus!
