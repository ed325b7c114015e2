//! The slots registry: who holds which consensus slot at which level, and
//! which of those slots are ours.
//!
//! A level's table maps each slot index to the validator holding it; one
//! validator usually holds several slots, and its smallest slot is the
//! canonical one used when signing. Only a short window of levels is kept.

use vstd::prelude::*;

verus! {

/// A committee member: an opaque identity handle and its voting power.
#[derive(Debug, Clone, Copy, PartialEq, Eq, Structural)]
pub struct Validator {
    pub id: u64,
    pub power: u32,
}

/// The slot table of one level: index `s` holds the validator of slot `s`.
#[derive(Debug, Clone)]
pub struct LevelSlots {
    pub level: i32,
    pub slots: Vec<Validator>,
}

/// The first table registered for `level`, if any.
pub open spec fn level_table(s: Seq<LevelSlots>, level: i32) -> Option<Seq<Validator>>
    decreases s.len(),
{
    if s.len() == 0 {
        None
    } else if s.first().level == level {
        Some(s.first().slots@)
    } else {
        level_table(s.drop_first(), level)
    }
}

/// Appending an entry: tables in front win; the appended entry only answers
/// when the front knows nothing of its level.
proof fn lemma_level_table_push(s: Seq<LevelSlots>, entry: LevelSlots, l: i32)
    ensures
        level_table(s.push(entry), l) == (match level_table(s, l) {
            Some(t) => Some(t),
            None => if entry.level == l {
                Some(entry.slots@)
            } else {
                None
            },
        }),
    decreases s.len(),
{
    if s.len() == 0 {
        assert(s.push(entry).first() == entry);
        assert(s.push(entry).drop_first() =~= Seq::<LevelSlots>::empty());
        assert(level_table(Seq::<LevelSlots>::empty(), l) is None);
        assert(level_table(s, l) is None);
    } else {
        assert(s.push(entry)[0] == s[0]);
        assert(s.push(entry).first() == s.first());
        assert(s.push(entry).drop_first() =~= s.drop_first().push(entry));
        lemma_level_table_push(s.drop_first(), entry, l);
    }
}

/// A list whose entries all sit above the horizon knows nothing below it.
proof fn lemma_level_table_absent(s: Seq<LevelSlots>, l: i32, new_level: i32)
    requires
        forall|j: int| 0 <= j < s.len() ==> (#[trigger] s[j].level) as int > new_level - 2,
        l as int <= new_level - 2,
    ensures
        level_table(s, l) is None,
    decreases s.len(),
{
    if s.len() > 0 {
        assert(s.first() == s[0]);
        assert forall|j: int|
            0 <= j < s.drop_first().len() implies (#[trigger] s.drop_first()[j].level) as int
            > new_level - 2 by {
            assert(s.drop_first()[j] == s[j + 1]);
        }
        lemma_level_table_absent(s.drop_first(), l, new_level);
    }
}

/// The slot indices below `n` whose validator is one of `ours`, ascending.
pub open spec fn owned_slots_upto(table: Seq<Validator>, ours: Seq<u64>, n: int) -> Seq<u16>
    decreases n,
{
    if n <= 0 {
        Seq::empty()
    } else {
        let rest = owned_slots_upto(table, ours, n - 1);
        if ours.contains(table[n - 1].id) {
            rest.push((n - 1) as u16)
        } else {
            rest
        }
    }
}

/// The slot indices below `n` held by the validator `id`, ascending.
pub open spec fn id_slots_upto(table: Seq<Validator>, id: u64, n: int) -> Seq<u16>
    decreases n,
{
    if n <= 0 {
        Seq::empty()
    } else {
        let rest = id_slots_upto(table, id, n - 1);
        if table[n - 1].id == id {
            rest.push((n - 1) as u16)
        } else {
            rest
        }
    }
}

/// If no slot below `s` is owned and slot `s` is, slot `s` heads the owned
/// list of any longer prefix.
proof fn lemma_owned_slots_first(table: Seq<Validator>, ours: Seq<u64>, s: int, n: int)
    requires
        0 <= s < n <= table.len(),
        owned_slots_upto(table, ours, s).len() == 0,
        ours.contains(table[s].id),
    ensures
        owned_slots_upto(table, ours, n).len() > 0,
        owned_slots_upto(table, ours, n)[0] == s as u16,
    decreases n,
{
    if n > s + 1 {
        lemma_owned_slots_first(table, ours, s, n - 1);
    }
}

/// Per-level slot tables, plus our own identities.
#[derive(Debug, Clone)]
pub struct SlotsInfo {
    pub committee_size: u32,
    pub ours: Vec<u64>,
    pub levels: Vec<LevelSlots>,
}

impl SlotsInfo {
    /// Every registered table fits the 16-bit slot index space.
    pub open spec fn wf(self) -> bool {
        forall|i: int|
            0 <= i < self.levels@.len() ==> (#[trigger] self.levels@[i].slots@.len()) <= 0xFFFF
    }

    /// The validator holding `slot` at `level`, if the level is known and the
    /// slot is in range.
    pub open spec fn spec_validator(self, level: i32, slot: u16) -> Option<Validator> {
        match level_table(self.levels@, level) {
            Some(t) => if slot < t.len() {
                Some(t[slot as int])
            } else {
                None
            },
            None => None,
        }
    }

    /// Our slots at `level`, ascending.
    pub open spec fn spec_our_slots(self, level: i32) -> Seq<u16> {
        match level_table(self.levels@, level) {
            Some(t) => owned_slots_upto(t, self.ours@, t.len() as int),
            None => Seq::empty(),
        }
    }

    /// Whether we hold any slot at `level`.
    pub open spec fn spec_has_slot(self, level: i32) -> bool {
        self.spec_our_slots(level).len() > 0
    }

    /// Whether we are the proposer of `round` at `level`: the round's number,
    /// taken as a slot index, is one of our slots.
    pub open spec fn spec_is_proposer(self, level: i32, round: i32) -> bool {
        &&& 0 <= round < 0x1_0000
        &&& (match self.spec_validator(level, round as u16) {
            Some(v) => self.ours@.contains(v.id),
            None => false,
        })
    }

    /// A fresh registry for a committee of `committee_size`, with our own
    /// identities.
    pub fn new(committee_size: u32, ours: Vec<u64>) -> (r: Self)
        ensures
            r.committee_size == committee_size,
            r.ours@ == ours@,
            r.levels@.len() == 0,
            r.wf(),
    {
        SlotsInfo { committee_size, ours, levels: Vec::new() }
    }

    /// Register the slot table of `level`, pruning tables older than one
    /// level behind it.
    #[verifier::loop_isolation(false)]
    pub fn insert(&mut self, level: i32, table: Vec<Validator>)
        requires
            old(self).wf(),
            table@.len() <= 0xFFFF,
        ensures
            final(self).wf(),
            level_table(final(self).levels@, level) == Some(table@),
            forall|l: i32|
                l != level && l as int > level - 2 ==> #[trigger] level_table(
                    final(self).levels@,
                    l,
                ) == level_table(old(self).levels@, l),
            forall|l: i32|
                l as int <= level - 2 ==> #[trigger] level_table(final(self).levels@, l) is None,
            final(self).ours@ == old(self).ours@,
            final(self).committee_size == old(self).committee_size,
    {
        let mut kept: Vec<LevelSlots> = Vec::new();
        kept.push(LevelSlots { level, slots: table });
        let mut i: usize = 0;
        while i < self.levels.len()
            invariant
                0 <= i <= self.levels@.len(),
                kept@.len() >= 1,
                kept@[0].level == level,
                kept@[0].slots@ == table@,
                forall|j: int|
                    0 <= j < kept@.len() ==> (#[trigger] kept@[j].slots@.len()) <= 0xFFFF,
                forall|j: int|
                    1 <= j < kept@.len() ==> (#[trigger] kept@[j].level) as int > level - 2
                        && kept@[j].level != level,
                forall|l: i32|
                    l != level && l as int > level - 2 ==> #[trigger] level_table(
                        kept@.drop_first(),
                        l,
                    ) == level_table(self.levels@.take(i as int), l),
            decreases self.levels@.len() - i,
        {
            let entry_level = self.levels[i].level;
            let ghost tail_before = kept@.drop_first();
            let ghost scanned = self.levels@.take(i as int);
            let keep = entry_level != level && (entry_level as i64) > (level as i64) - 2;
            if keep {
                let entry = LevelSlots { level: entry_level, slots: self.levels[i].slots.clone() };
                proof {
                    assert(entry.slots@ =~= self.levels@[i as int].slots@);
                }
                kept.push(entry);
            }
            proof {
                let scanned1 = self.levels@.take(i + 1);
                assert(scanned1 =~= scanned.push(self.levels@[i as int]));
                let c = kept@.last();
                if keep {
                    assert(kept@.drop_first() =~= tail_before.push(c));
                }
                assert forall|l: i32| l != level && l as int > level - 2 implies #[trigger] level_table(
                    kept@.drop_first(),
                    l,
                ) == level_table(self.levels@.take(i + 1), l) by {
                    lemma_level_table_push(scanned, self.levels@[i as int], l);
                    if keep {
                        lemma_level_table_push(tail_before, c, l);
                    }
                }
            }
            i = i + 1;
        }
        proof {
            assert(self.levels@.take(self.levels@.len() as int) =~= self.levels@);
        }
        self.levels = kept;
        proof {
            assert(self.levels@.first() == self.levels@[0]);
            assert forall|l: i32| l != level && l as int > level - 2 implies #[trigger] level_table(
                self.levels@,
                l,
            ) == level_table(old(self).levels@, l) by {
                assert(level_table(self.levels@, l) == level_table(self.levels@.drop_first(), l));
            }
            assert forall|l: i32| l as int <= level - 2 implies #[trigger] level_table(
                self.levels@,
                l,
            ) is None by {
                lemma_level_table_absent(self.levels@.drop_first(), l, level);
            }
        }
    }

    /// The validator holding `slot` at `level`.
    #[verifier::loop_isolation(false)]
    pub fn validator(&self, level: i32, slot: u16) -> (r: Option<Validator>)
        ensures
            r == self.spec_validator(level, slot),
    {
        let mut i: usize = 0;
        proof {
            assert(self.levels@.skip(0) =~= self.levels@);
        }
        while i < self.levels.len()
            invariant
                0 <= i <= self.levels@.len(),
                level_table(self.levels@, level) == level_table(
                    self.levels@.skip(i as int),
                    level,
                ),
            decreases self.levels@.len() - i,
        {
            proof {
                assert(self.levels@.skip(i as int).first() == self.levels@[i as int]);
                assert(self.levels@.skip(i as int).drop_first() =~= self.levels@.skip(i + 1));
            }
            if self.levels[i].level == level {
                let ls = &self.levels[i];
                if (slot as usize) < ls.slots.len() {
                    return Some(ls.slots[slot as usize]);
                } else {
                    return None;
                }
            }
            i = i + 1;
        }
        proof {
            assert(self.levels@.skip(self.levels@.len() as int) =~= Seq::<LevelSlots>::empty());
        }
        None
    }

    /// Resolve a preendorsement's `(level, slot)` to its weighted validator.
    pub fn preendorsement(&self, level: i32, slot: u16) -> (r: Option<Validator>)
        ensures
            r == self.spec_validator(level, slot),
    {
        self.validator(level, slot)
    }

    /// Resolve an endorsement's `(level, slot)` to its weighted validator.
    pub fn endorsement(&self, level: i32, slot: u16) -> (r: Option<Validator>)
        ensures
            r == self.spec_validator(level, slot),
    {
        self.validator(level, slot)
    }

    /// The sorted slots the validator `id` holds at `level`, if any.
    #[verifier::loop_isolation(false)]
    pub fn slots(&self, id: u64, level: i32) -> (r: Option<Vec<u16>>)
        requires
            self.wf(),
        ensures
            (match level_table(self.levels@, level) {
                Some(t) => {
                    let owned = id_slots_upto(t, id, t.len() as int);
                    if owned.len() == 0 {
                        r is None
                    } else {
                        r matches Some(v) && v@ == owned
                    }
                },
                None => r is None,
            }),
    {
        let mut i: usize = 0;
        proof {
            assert(self.levels@.skip(0) =~= self.levels@);
        }
        while i < self.levels.len()
            invariant
                0 <= i <= self.levels@.len(),
                level_table(self.levels@, level) == level_table(
                    self.levels@.skip(i as int),
                    level,
                ),
            decreases self.levels@.len() - i,
        {
            proof {
                assert(self.levels@.skip(i as int).first() == self.levels@[i as int]);
                assert(self.levels@.skip(i as int).drop_first() =~= self.levels@.skip(i + 1));
            }
            if self.levels[i].level == level {
                let table = &self.levels[i].slots;
                let mut owned: Vec<u16> = Vec::new();
                let mut s: usize = 0;
                while s < table.len()
                    invariant
                        0 <= s <= table@.len(),
                        owned@ == id_slots_upto(table@, id, s as int),
                    decreases table@.len() - s,
                {
                    if table[s].id == id {
                        owned.push(s as u16);
                    }
                    s = s + 1;
                }
                if owned.len() == 0 {
                    return None;
                } else {
                    return Some(owned);
                }
            }
            i = i + 1;
        }
        proof {
            assert(self.levels@.skip(self.levels@.len() as int) =~= Seq::<LevelSlots>::empty());
        }
        None
    }

    /// Our smallest slot at `level`: the canonical signing slot.
    #[verifier::loop_isolation(false)]
    pub fn our_first_slot(&self, level: i32) -> (r: Option<u16>)
        requires
            self.wf(),
        ensures
            (r is None) <==> self.spec_our_slots(level).len() == 0,
            r matches Some(s) ==> s == self.spec_our_slots(level)[0],
    {
        let mut i: usize = 0;
        proof {
            assert(self.levels@.skip(0) =~= self.levels@);
        }
        while i < self.levels.len()
            invariant
                0 <= i <= self.levels@.len(),
                level_table(self.levels@, level) == level_table(
                    self.levels@.skip(i as int),
                    level,
                ),
            decreases self.levels@.len() - i,
        {
            proof {
                assert(self.levels@.skip(i as int).first() == self.levels@[i as int]);
                assert(self.levels@.skip(i as int).drop_first() =~= self.levels@.skip(i + 1));
            }
            if self.levels[i].level == level {
                let table = &self.levels[i].slots;
                let mut s: usize = 0;
                while s < table.len()
                    invariant
                        0 <= s <= table@.len(),
                        owned_slots_upto(table@, self.ours@, s as int).len() == 0,
                    decreases table@.len() - s,
                {
                    if self.is_ours(table[s].id) {
                        proof {
                            lemma_owned_slots_first(
                                table@,
                                self.ours@,
                                s as int,
                                table@.len() as int,
                            );
                        }
                        return Some(s as u16);
                    }
                    s = s + 1;
                }
                return None;
            }
            i = i + 1;
        }
        proof {
            assert(self.levels@.skip(self.levels@.len() as int) =~= Seq::<LevelSlots>::empty());
        }
        None
    }

    /// Whether `id` is one of our identities.
    pub fn is_ours(&self, id: u64) -> (r: bool)
        ensures
            r == self.ours@.contains(id),
    {
        let mut i: usize = 0;
        while i < self.ours.len()
            invariant
                0 <= i <= self.ours@.len(),
                forall|j: int| 0 <= j < i ==> #[trigger] self.ours@[j] != id,
            decreases self.ours@.len() - i,
        {
            if self.ours[i] == id {
                return true;
            }
            i = i + 1;
        }
        false
    }

    /// Whether we are the proposer of `round` at `level`.
    pub fn is_proposer(&self, level: i32, round: i32) -> (r: bool)
        ensures
            r == self.spec_is_proposer(level, round),
    {
        if round < 0 || round >= 0x1_0000 {
            return false;
        }
        match self.validator(level, round as u16) {
            Some(v) => self.is_ours(v.id),
            None => false,
        }
    }

    /// Whether we hold any slot at `level`.
    pub fn has_slot(&self, level: i32) -> (r: bool)
        requires
            self.wf(),
        ensures
            r == self.spec_has_slot(level),
    {
        match self.our_first_slot(level) {
            Some(_) => true,
            None => false,
        }
    }
}

} // verus!
