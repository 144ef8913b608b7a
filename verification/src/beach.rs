//! The beach: an ordered, owning collection of crabs, together with the
//! clan system that groups crab names into clans.
//!
//! Crabs are only ever appended, never removed, so an index stays valid
//! until the next insertion. Clan membership is recorded by name alone: a
//! member name is resolved against the crabs only when a clan's average
//! speed is computed, and a name that matches no crab simply contributes
//! nothing.

use vstd::arithmetic::div_mod::lemma_div_by_multiple;
use vstd::arithmetic::div_mod::lemma_div_is_ordered;
use vstd::arithmetic::div_mod::lemma_div_pos_is_pos;
use vstd::prelude::*;
use vstd::string::StringExecFns;

use crate::clans::add_member_spec;
use crate::clans::has_clan;
use crate::clans::lemma_first_idx;
use crate::clans::members_of;
use crate::clans::ClanSystem;
use crate::clans::ClanView;
use crate::color::cross_spec;
use crate::color::Color;
use crate::crab::Crab;
use crate::crab::CrabView;
use crate::diet::Diet;

verus! {

/// What a beach is, mathematically: the crabs in insertion order, and the
/// clans of its clan system in creation order.
#[verifier::ext_equal]
pub ghost struct BeachView {
    pub crabs: Seq<CrabView>,
    pub clans: Seq<ClanView>,
}

/// The index of the first crab carrying this name, or -1 if no crab does.
pub open spec fn first_crab_idx(crabs: Seq<CrabView>, name: Seq<char>) -> int
    decreases crabs.len(),
{
    if crabs.len() == 0 {
        -1
    } else if crabs[0].name == name {
        0
    } else {
        let r = first_crab_idx(crabs.drop_first(), name);
        if r == -1 {
            -1
        } else {
            r + 1
        }
    }
}

/// The speed a member name contributes to its clan's total: the speed of
/// the first crab carrying the name, or nothing if no crab does.
pub open spec fn member_speed(crabs: Seq<CrabView>, name: Seq<char>) -> int {
    if first_crab_idx(crabs, name) == -1 {
        0
    } else {
        crabs[first_crab_idx(crabs, name)].speed as int
    }
}

/// The sum of the speeds the member names contribute.
pub open spec fn total_speed(crabs: Seq<CrabView>, members: Seq<Seq<char>>) -> int
    decreases members.len(),
{
    if members.len() == 0 {
        0
    } else {
        total_speed(crabs, members.drop_last()) + member_speed(crabs, members.last())
    }
}

/// The average speed of a clan: the total contributed speed divided,
/// truncating, by the number of members.
pub open spec fn average_speed(crabs: Seq<CrabView>, members: Seq<Seq<char>>) -> int {
    total_speed(crabs, members) / members.len() as int
}

/// The index of the first crab attaining the highest speed; only
/// meaningful for a non-empty collection.
pub open spec fn fastest_idx(crabs: Seq<CrabView>) -> int
    decreases crabs.len(),
{
    if crabs.len() <= 1 {
        0
    } else {
        let p = fastest_idx(crabs.drop_last());
        if crabs.last().speed > crabs[p].speed {
            crabs.len() - 1
        } else {
            p
        }
    }
}

/// The crabs carrying this name, in insertion order.
pub open spec fn crabs_named(crabs: Seq<CrabView>, name: Seq<char>) -> Seq<CrabView>
    decreases crabs.len(),
{
    if crabs.len() == 0 {
        Seq::<CrabView>::empty()
    } else {
        let rest = crabs_named(crabs.drop_last(), name);
        if crabs.last().name == name {
            rest.push(crabs.last())
        } else {
            rest
        }
    }
}

/// The crabs carrying a name are exactly the matching subsequence of the
/// collection: filtering the crabs by that name gives the same sequence.
pub proof fn lemma_crabs_named_is_filter(crabs: Seq<CrabView>, name: Seq<char>)
    ensures
        crabs_named(crabs, name) == crabs.filter(|c: CrabView| c.name == name),
    decreases crabs.len(),
{
    reveal(Seq::filter);
    if crabs.len() > 0 {
        lemma_crabs_named_is_filter(crabs.drop_last(), name);
    }
}

/// `first_crab_idx` finds the first crab carrying the name: where it
/// reports -1 no crab carries it, and where it reports an index, that crab
/// carries the name and no earlier crab does.
pub proof fn lemma_first_crab_idx(crabs: Seq<CrabView>, name: Seq<char>)
    ensures
        first_crab_idx(crabs, name) == -1 ==> forall|k: int|
            0 <= k < crabs.len() ==> crabs[k].name != name,
        first_crab_idx(crabs, name) != -1 ==> 0 <= first_crab_idx(crabs, name) < crabs.len(),
        first_crab_idx(crabs, name) != -1 ==> crabs[first_crab_idx(crabs, name)].name == name,
        first_crab_idx(crabs, name) != -1 ==> forall|k: int|
            0 <= k < first_crab_idx(crabs, name) ==> crabs[k].name != name,
    decreases crabs.len(),
{
    if crabs.len() > 0 && crabs[0].name != name {
        let d = crabs.drop_first();
        lemma_first_crab_idx(d, name);
        if first_crab_idx(crabs, name) == -1 {
            assert forall|k: int| 0 <= k < crabs.len() implies crabs[k].name != name by {
                if k >= 1 {
                    assert(d[k - 1] == crabs[k]);
                }
            }
        } else {
            let f = first_crab_idx(crabs, name);
            assert(d[f - 1] == crabs[f]);
            assert forall|k: int| 0 <= k < f implies crabs[k].name != name by {
                if k >= 1 {
                    assert(d[k - 1] == crabs[k]);
                }
            }
        }
    }
}

/// The first crab attaining the highest speed is a real index, no crab is
/// faster than it, and every earlier crab is strictly slower.
pub proof fn lemma_fastest_idx(crabs: Seq<CrabView>)
    requires
        crabs.len() > 0,
    ensures
        0 <= fastest_idx(crabs) < crabs.len(),
        forall|k: int| 0 <= k < crabs.len() ==> #[trigger] crabs[k].speed
            <= crabs[fastest_idx(crabs)].speed,
        forall|k: int| 0 <= k < fastest_idx(crabs) ==> #[trigger] crabs[k].speed
            < crabs[fastest_idx(crabs)].speed,
    decreases crabs.len(),
{
    if crabs.len() > 1 {
        lemma_fastest_idx(crabs.drop_last());
        assert(forall|k: int| 0 <= k < crabs.len() - 1 ==> crabs.drop_last()[k] == crabs[k]);
    }
}

/// The total contributed speed of a clan is never negative and never more
/// than the member count times the largest possible speed.
pub proof fn lemma_total_speed_bound(crabs: Seq<CrabView>, members: Seq<Seq<char>>)
    ensures
        0 <= total_speed(crabs, members),
        total_speed(crabs, members) <= members.len() * (u32::MAX as int),
    decreases members.len(),
{
    if members.len() > 0 {
        lemma_total_speed_bound(crabs, members.drop_last());
    }
}

/// After an insertion the collection holds one more entity: every crab
/// already on the beach keeps its index and its record, and the new crab
/// stands at the end.
pub proof fn lemma_append_preserves_crabs(crabs: Seq<CrabView>, c: CrabView)
    ensures
        crabs.push(c).len() == crabs.len() + 1,
        forall|k: int| 0 <= k < crabs.len() ==> crabs.push(c)[k] == crabs[k],
        crabs.push(c)[crabs.len() as int] == c,
{
}

/// A beach holding crabs in insertion order, and owning one clan system.
#[derive(Debug)]
pub struct Beach {
    crabs: Vec<Crab>,
    clan_system: ClanSystem,
}

impl View for Beach {
    type V = BeachView;

    closed spec fn view(&self) -> BeachView {
        BeachView { crabs: self.crabs@.map_values(|c: Crab| c@), clans: self.clan_system@ }
    }
}

impl Beach {
    /// Construct an empty beach: no crabs, and an empty clan system.
    pub fn new() -> (b: Beach)
        ensures
            b@.crabs == Seq::<CrabView>::empty(),
            b@.clans == Seq::<ClanView>::empty(),
    {
        let b = Beach { crabs: Vec::new(), clan_system: ClanSystem::new() };
        proof {
            assert(b@.crabs =~= Seq::<CrabView>::empty());
        }
        b
    }

    /// The number of crabs on the beach.
    pub fn size(&self) -> (n: usize)
        ensures
            n == self@.crabs.len(),
    {
        self.crabs.len()
    }

    /// Append a crab, taking ownership of it. The crabs already on the
    /// beach keep their indices; the new crab stands at the end.
    pub fn add_crab(&mut self, crab: Crab)
        ensures
            final(self)@.crabs == old(self)@.crabs.push(crab@),
            final(self)@.clans == old(self)@.clans,
    {
        self.crabs.push(crab);
        proof {
            assert(self@.crabs =~= old(self)@.crabs.push(crab@));
        }
    }

    /// The crab at this index.
    pub fn get_crab(&self, index: usize) -> (r: &Crab)
        requires
            index < self@.crabs.len(),
        ensures
            r@ == self@.crabs[index as int],
    {
        &self.crabs[index]
    }

    /// All crabs, in insertion order.
    pub fn crabs(&self) -> (r: &Vec<Crab>)
        ensures
            r@.map_values(|c: Crab| c@) == self@.crabs,
    {
        &self.crabs
    }

    /// The crab with the highest speed, or nothing if the beach is empty.
    /// Of several crabs attaining the highest speed, the one added first
    /// is returned.
    pub fn get_fastest_crab(&self) -> (r: Option<&Crab>)
        ensures
            r is None <==> self@.crabs.len() == 0,
            self@.crabs.len() > 0 ==> r.unwrap()@ == self@.crabs[fastest_idx(self@.crabs)],
            forall|k: int| 0 <= k < self@.crabs.len() ==> #[trigger] self@.crabs[k].speed
                <= self@.crabs[fastest_idx(self@.crabs)].speed,
    {
        let n = self.crabs.len();
        if n == 0 {
            return None;
        }
        let mut best: usize = 0;
        let mut i: usize = 1;
        while i < n
            invariant
                n == self.crabs@.len(),
                1 <= i <= n,
                best < i,
                best as int == fastest_idx(self@.crabs.take(i as int)),
            decreases n - i,
        {
            proof {
                let t = self@.crabs.take(i as int + 1);
                assert(t.drop_last() =~= self@.crabs.take(i as int));
                assert(t.last() == self@.crabs[i as int]);
            }
            if self.crabs[i].speed() > self.crabs[best].speed() {
                best = i;
            }
            i = i + 1;
        }
        proof {
            assert(self@.crabs.take(n as int) =~= self@.crabs);
            lemma_fastest_idx(self@.crabs);
        }
        Some(&self.crabs[best])
    }

    /// All crabs carrying this name, in insertion order; empty when no
    /// crab matches.
    pub fn find_crabs_by_name<'a>(&'a self, name: &str) -> (r: Vec<&'a Crab>)
        ensures
            r@.map_values(|c: &Crab| c@) == crabs_named(self@.crabs, name@),
    {
        let n = self.crabs.len();
        let mut r: Vec<&'a Crab> = Vec::new();
        let mut i: usize = 0;
        while i < n
            invariant
                n == self.crabs@.len(),
                i <= n,
                r@.map_values(|c: &Crab| c@) == crabs_named(self@.crabs.take(i as int), name@),
            decreases n - i,
        {
            proof {
                let t = self@.crabs.take(i as int + 1);
                assert(t.drop_last() =~= self@.crabs.take(i as int));
                assert(t.last() == self@.crabs[i as int]);
            }
            if self.crabs[i].is_named(name) {
                r.push(&self.crabs[i]);
            }
            proof {
                assert(r@.map_values(|c: &Crab| c@) =~= crabs_named(
                    self@.crabs.take(i as int + 1),
                    name@,
                ));
            }
            i = i + 1;
        }
        proof {
            assert(self@.crabs.take(n as int) =~= self@.crabs);
        }
        r
    }

    /// Breed the crabs at these two indices into a new crab carrying the
    /// given name: its color crosses the parents' colors, its diet is
    /// drawn at random, and its speed starts at the baseline of 1. The new
    /// crab is appended; the parents stay untouched.
    pub fn breed_crabs(&mut self, i: usize, j: usize, name: String)
        requires
            i < old(self)@.crabs.len(),
            j < old(self)@.crabs.len(),
        ensures
            final(self)@.crabs.len() == old(self)@.crabs.len() + 1,
            forall|k: int| 0 <= k < old(self)@.crabs.len() ==> final(self)@.crabs[k] == old(
                self,
            )@.crabs[k],
            final(self)@.crabs.last().name == name@,
            final(self)@.crabs.last().speed == 1,
            final(self)@.crabs.last().color == cross_spec(
                old(self)@.crabs[i as int].color,
                old(self)@.crabs[j as int].color,
            ),
            final(self)@.clans == old(self)@.clans,
    {
        let color_i = self.crabs[i].color();
        let color_j = self.crabs[j].color();
        let diet = Diet::random_diet();
        let color = Color::cross(color_i, color_j);
        let new_crab = Crab::new(name, 1, color, diet);
        self.add_crab(new_crab);
    }

    /// The clan system owned by the beach.
    pub fn get_clan_system(&self) -> (r: &ClanSystem)
        ensures
            r@ == self@.clans,
    {
        &self.clan_system
    }

    /// Record a crab name as a member of a clan, creating the clan if the
    /// id is unseen. The name is not checked against the crabs on the
    /// beach: a member name may match no crab.
    pub fn add_member_to_clan(&mut self, clan_id: &str, crab_name: &str)
        ensures
            final(self)@.crabs == old(self)@.crabs,
            final(self)@.clans == add_member_spec(old(self)@.clans, clan_id@, crab_name@),
            has_clan(final(self)@.clans, clan_id@),
            members_of(final(self)@.clans, clan_id@) == members_of(
                old(self)@.clans,
                clan_id@,
            ).push(crab_name@),
            final(self)@.clans.len() == if has_clan(old(self)@.clans, clan_id@) {
                old(self)@.clans.len() as int
            } else {
                old(self)@.clans.len() as int + 1
            },
            forall|other: Seq<char>| other != clan_id@ ==> #[trigger] has_clan(
                final(self)@.clans,
                other,
            ) == has_clan(old(self)@.clans, other),
            forall|other: Seq<char>| other != clan_id@ ==> #[trigger] members_of(
                final(self)@.clans,
                other,
            ) == members_of(old(self)@.clans, other),
    {
        self.clan_system.add_member_to_clan(clan_id, crab_name);
    }

    /// The speed of the first crab carrying this name, or an error naming
    /// the crab when no crab on the beach does.
    pub fn get_crab_speed_by_name(&self, crab_name: &str) -> (r: Result<u32, String>)
        ensures
            r is Ok <==> first_crab_idx(self@.crabs, crab_name@) != -1,
            r is Ok ==> r->Ok_0 as int == member_speed(self@.crabs, crab_name@),
            r is Err ==> r->Err_0@ == "Crab with name '"@ + crab_name@ + "' not found"@,
    {
        let n = self.crabs.len();
        let mut i: usize = 0;
        while i < n
            invariant
                n == self.crabs@.len(),
                i <= n,
                forall|k: int| 0 <= k < i ==> #[trigger] self@.crabs[k].name != crab_name@,
            decreases n - i,
        {
            if self.crabs[i].is_named(crab_name) {
                proof {
                    lemma_first_crab_idx(self@.crabs, crab_name@);
                    let v = first_crab_idx(self@.crabs, crab_name@);
                    assert(self@.crabs[i as int].name == crab_name@);
                    assert(v != -1);
                    assert(!(v < i as int));
                    assert(!(v > i as int));
                }
                return Ok(self.crabs[i].speed());
            }
            i = i + 1;
        }
        proof {
            lemma_first_crab_idx(self@.crabs, crab_name@);
            let v = first_crab_idx(self@.crabs, crab_name@);
            if v != -1 {
                assert(self@.crabs[v].name == crab_name@);
            }
        }
        let mut msg = String::from_str("Crab with name '");
        msg.append(crab_name);
        msg.append("' not found");
        Err(msg)
    }

    /// The average speed of the clan carrying this id: each member name is
    /// resolved to the first crab carrying it, an unresolvable name
    /// contributes nothing, and the summed speeds are divided, truncating,
    /// by the member count. An unknown id and a clan without members are
    /// both errors.
    pub fn calculate_average_speed(&self, clan_id: &str) -> (r: Result<u32, String>)
        ensures
            !has_clan(self@.clans, clan_id@) ==> r is Err && r->Err_0@ == "Clan not found"@,
            has_clan(self@.clans, clan_id@) && members_of(self@.clans, clan_id@).len() == 0
                ==> r is Err && r->Err_0@ == "Clan has no members"@,
            has_clan(self@.clans, clan_id@) && members_of(self@.clans, clan_id@).len() > 0
                ==> r is Ok && r->Ok_0 as int == average_speed(
                self@.crabs,
                members_of(self@.clans, clan_id@),
            ),
    {
        let idx = match self.clan_system.find_clan_index(clan_id) {
            None => {
                return Err(String::from_str("Clan not found"));
            },
            Some(i) => i,
        };
        proof {
            lemma_first_idx(self@.clans, clan_id@);
        }
        let members = &self.clan_system.clans[idx].members;
        let count = members.len();
        if count == 0 {
            proof {
                assert(members_of(self@.clans, clan_id@) =~= members.deep_view());
            }
            return Err(String::from_str("Clan has no members"));
        }
        proof {
            assert(members_of(self@.clans, clan_id@) =~= members.deep_view());
        }
        let ghost crabs = self@.crabs;
        let ghost names = members.deep_view();
        let mut total: u128 = 0;
        let mut j: usize = 0;
        while j < count
            invariant
                count == members@.len(),
                names == members.deep_view(),
                crabs == self@.crabs,
                j <= count,
                total as int == total_speed(crabs, names.take(j as int)),
                total as int <= j * (u32::MAX as int),
            decreases count - j,
        {
            proof {
                let t = names.take(j as int + 1);
                assert(t.drop_last() =~= names.take(j as int));
                assert(t.last() == names[j as int]);
                lemma_total_speed_bound(crabs, names.take(j as int));
            }
            match self.get_crab_speed_by_name(members[j].as_str()) {
                Ok(speed) => {
                    total = total + speed as u128;
                },
                Err(_) => {
                    proof {
                        assert(member_speed(crabs, names[j as int]) == 0);
                    }
                },
            }
            j = j + 1;
        }
        proof {
            assert(names.take(count as int) =~= names);
            lemma_total_speed_bound(crabs, names);
            lemma_div_pos_is_pos(total as int, count as int);
            lemma_div_is_ordered(total as int, count as int * (u32::MAX as int), count as int);
            lemma_div_by_multiple(u32::MAX as int, count as int);
        }
        let avg = total / (count as u128);
        Ok(avg as u32)
    }

    /// Decide the contest between the clans carrying these two ids: the id
    /// whose clan has the strictly higher average speed wins; exactly
    /// equal averages mean no winner, which is not an error. An id that
    /// does not name a usable clan is an error, the first id being checked
    /// first.
    pub fn get_winner_clan(&self, id1: &str, id2: &str) -> (r: Result<Option<String>, String>)
        ensures
            ({
                let crabs = self@.crabs;
                let cs = self@.clans;
                let ok1 = has_clan(cs, id1@) && members_of(cs, id1@).len() > 0;
                let ok2 = has_clan(cs, id2@) && members_of(cs, id2@).len() > 0;
                let avg1 = average_speed(crabs, members_of(cs, id1@));
                let avg2 = average_speed(crabs, members_of(cs, id2@));
                &&& !has_clan(cs, id1@) ==> r is Err && r->Err_0@ == "Clan not found"@
                &&& has_clan(cs, id1@) && members_of(cs, id1@).len() == 0 ==> r is Err
                    && r->Err_0@ == "Clan has no members"@
                &&& ok1 && !has_clan(cs, id2@) ==> r is Err && r->Err_0@ == "Clan not found"@
                &&& ok1 && has_clan(cs, id2@) && members_of(cs, id2@).len() == 0 ==> r is Err
                    && r->Err_0@ == "Clan has no members"@
                &&& ok1 && ok2 && avg1 > avg2 ==> r is Ok && r->Ok_0 is Some
                    && r->Ok_0.unwrap()@ == id1@
                &&& ok1 && ok2 && avg1 < avg2 ==> r is Ok && r->Ok_0 is Some
                    && r->Ok_0.unwrap()@ == id2@
                &&& ok1 && ok2 && avg1 == avg2 ==> r is Ok && r->Ok_0 is None
            }),
    {
        let speed1 = match self.calculate_average_speed(id1) {
            Ok(s) => s,
            Err(e) => {
                return Err(e);
            },
        };
        let speed2 = match self.calculate_average_speed(id2) {
            Ok(s) => s,
            Err(e) => {
                return Err(e);
            },
        };
        if speed1 > speed2 {
            Ok(Some(String::from_str(id1)))
        } else if speed1 < speed2 {
            Ok(Some(String::from_str(id2)))
        } else {
            Ok(None)
        }
    }
}

} // verus!
