//! The clan system: an ordered registry of clans, each a clan id together
//! with the ordered list of its members' names.
//!
//! A clan is created lazily the first time a member is added under an unseen
//! id, is never deleted, and its member list only grows. Member names are
//! plain text: they need not correspond to any crab that exists anywhere.

use vstd::prelude::*;
use vstd::string::StringExecFns;

use crate::text::str_eq;

verus! {

/// What a clan is, mathematically: its id and its member names, each a
/// sequence of characters, the members in insertion order.
#[verifier::ext_equal]
pub ghost struct ClanView {
    pub id: Seq<char>,
    pub members: Seq<Seq<char>>,
}

/// One clan: a stable identifier and the names of its members, in the
/// order they were added. A name may occur more than once.
#[derive(Debug)]
pub struct Clan {
    pub id: String,
    pub members: Vec<String>,
}

impl View for Clan {
    type V = ClanView;

    open spec fn view(&self) -> ClanView {
        ClanView { id: self.id@, members: self.members.deep_view() }
    }
}

/// The registry of all clans, in the order they were created.
#[derive(Debug)]
pub struct ClanSystem {
    pub clans: Vec<Clan>,
}

impl View for ClanSystem {
    type V = Seq<ClanView>;

    open spec fn view(&self) -> Seq<ClanView> {
        self.clans@.map_values(|c: Clan| c@)
    }
}

/// The index of the first clan carrying this id, or -1 if no clan does.
pub open spec fn first_idx(s: Seq<ClanView>, id: Seq<char>) -> int
    decreases s.len(),
{
    if s.len() == 0 {
        -1
    } else if s[0].id == id {
        0
    } else {
        let r = first_idx(s.drop_first(), id);
        if r == -1 {
            -1
        } else {
            r + 1
        }
    }
}

/// Whether some clan carries this id.
pub open spec fn has_clan(s: Seq<ClanView>, id: Seq<char>) -> bool {
    first_idx(s, id) != -1
}

/// The member names of the first clan carrying this id, or the empty
/// sequence if no clan does.
pub open spec fn members_of(s: Seq<ClanView>, id: Seq<char>) -> Seq<Seq<char>> {
    if has_clan(s, id) {
        s[first_idx(s, id)].members
    } else {
        Seq::<Seq<char>>::empty()
    }
}

/// The registry after a member name is added under a clan id: the name is
/// appended to the first clan carrying the id, or, if no clan does, a new
/// clan holding only that name is appended after all existing clans.
pub open spec fn add_member_spec(s: Seq<ClanView>, id: Seq<char>, name: Seq<char>) -> Seq<ClanView> {
    if has_clan(s, id) {
        let k = first_idx(s, id);
        s.update(k, ClanView { id: s[k].id, members: s[k].members.push(name) })
    } else {
        s.push(ClanView { id, members: seq![name] })
    }
}

/// The index of the first clan attaining the largest member count; only
/// meaningful for a non-empty registry.
pub open spec fn largest_idx(s: Seq<ClanView>) -> int
    decreases s.len(),
{
    if s.len() <= 1 {
        0
    } else {
        let p = largest_idx(s.drop_last());
        if s.last().members.len() > s[p].members.len() {
            s.len() - 1
        } else {
            p
        }
    }
}

/// `first_idx` finds the first clan carrying the id: where it reports -1 no
/// clan carries it, and where it reports an index, that clan carries the id
/// and no earlier clan does.
pub proof fn lemma_first_idx(s: Seq<ClanView>, id: Seq<char>)
    ensures
        first_idx(s, id) == -1 ==> forall|k: int| 0 <= k < s.len() ==> s[k].id != id,
        first_idx(s, id) != -1 ==> 0 <= first_idx(s, id) < s.len(),
        first_idx(s, id) != -1 ==> s[first_idx(s, id)].id == id,
        first_idx(s, id) != -1 ==> forall|k: int| 0 <= k < first_idx(s, id) ==> s[k].id != id,
    decreases s.len(),
{
    if s.len() > 0 && s[0].id != id {
        let d = s.drop_first();
        lemma_first_idx(d, id);
        if first_idx(s, id) == -1 {
            assert forall|k: int| 0 <= k < s.len() implies s[k].id != id by {
                if k >= 1 {
                    assert(d[k - 1] == s[k]);
                }
            }
        } else {
            let f = first_idx(s, id);
            assert(d[f - 1] == s[f]);
            assert forall|k: int| 0 <= k < f implies s[k].id != id by {
                if k >= 1 {
                    assert(d[k - 1] == s[k]);
                }
            }
        }
    }
}

/// Two registries whose clans carry the same ids at the same positions
/// agree on where any id first occurs.
proof fn lemma_first_idx_same_ids(s: Seq<ClanView>, t: Seq<ClanView>, id: Seq<char>)
    requires
        s.len() == t.len(),
        forall|k: int| 0 <= k < s.len() ==> s[k].id == t[k].id,
    ensures
        first_idx(s, id) == first_idx(t, id),
    decreases s.len(),
{
    if s.len() > 0 && s[0].id != id {
        assert(forall|k: int| 0 <= k < s.len() - 1 ==> s.drop_first()[k] == s[k + 1]);
        assert(forall|k: int| 0 <= k < t.len() - 1 ==> t.drop_first()[k] == t[k + 1]);
        lemma_first_idx_same_ids(s.drop_first(), t.drop_first(), id);
    }
}

/// Appending a clan leaves the first occurrence of every id that already
/// occurs, makes the appended clan the first occurrence of an id not seen
/// before, and introduces no other id.
proof fn lemma_first_idx_push(s: Seq<ClanView>, c: ClanView, id: Seq<char>)
    ensures
        first_idx(s.push(c), id) == if first_idx(s, id) != -1 {
            first_idx(s, id)
        } else if c.id == id {
            s.len() as int
        } else {
            -1
        },
    decreases s.len(),
{
    let t = s.push(c);
    if s.len() == 0 {
        assert(t[0] == c);
        assert(first_idx(s, id) == -1);
        if c.id != id {
            assert(t.drop_first().len() == 0);
            assert(first_idx(t.drop_first(), id) == -1);
            assert(first_idx(t, id) == -1);
        }
    } else {
        assert(t[0] == s[0]);
        if s[0].id != id {
            let d = s.drop_first();
            assert(t.drop_first() =~= d.push(c));
            lemma_first_idx_push(d, c, id);
            lemma_first_idx(d, id);
            assert(first_idx(t, id) == if first_idx(d.push(c), id) == -1 {
                -1
            } else {
                first_idx(d.push(c), id) + 1
            });
            assert(first_idx(s, id) == if first_idx(d, id) == -1 {
                -1
            } else {
                first_idx(d, id) + 1
            });
        }
    }
}


/// What adding a member does to the registry: the id afterwards names a
/// clan whose member list is the old one with the name appended; the number
/// of clans grows exactly when the id was unseen; and every other id keeps
/// its clans and members untouched.
pub proof fn lemma_add_member_spec(s: Seq<ClanView>, id: Seq<char>, name: Seq<char>)
    ensures
        has_clan(add_member_spec(s, id, name), id),
        members_of(add_member_spec(s, id, name), id) == members_of(s, id).push(name),
        add_member_spec(s, id, name).len() == if has_clan(s, id) {
            s.len() as int
        } else {
            s.len() as int + 1
        },
        forall|other: Seq<char>| other != id ==> #[trigger] has_clan(
            add_member_spec(s, id, name),
            other,
        ) == has_clan(s, other),
        forall|other: Seq<char>| other != id ==> #[trigger] members_of(
            add_member_spec(s, id, name),
            other,
        ) == members_of(s, other),
{
    lemma_first_idx(s, id);
    let t = add_member_spec(s, id, name);
    if has_clan(s, id) {
        let k = first_idx(s, id);
        assert(forall|j: int| 0 <= j < s.len() ==> s[j].id == t[j].id);
        lemma_first_idx_same_ids(s, t, id);
        assert(members_of(t, id) == s[k].members.push(name));
        assert forall|other: Seq<char>| other != id implies #[trigger] has_clan(t, other)
            == has_clan(s, other) by {
            lemma_first_idx_same_ids(s, t, other);
        }
        assert forall|other: Seq<char>| other != id implies #[trigger] members_of(t, other)
            == members_of(s, other) by {
            lemma_first_idx_same_ids(s, t, other);
            lemma_first_idx(s, other);
            if has_clan(s, other) {
                let m = first_idx(s, other);
                assert(s[m].id == other);
                assert(m != k);
                assert(t[m] == s[m]);
            }
        }
    } else {
        let c = ClanView { id, members: seq![name] };
        lemma_first_idx_push(s, c, id);
        assert(first_idx(t, id) == s.len() as int);
        assert(t[s.len() as int] == c);
        assert(members_of(t, id) =~= members_of(s, id).push(name));
        assert forall|other: Seq<char>| other != id implies #[trigger] has_clan(t, other)
            == has_clan(s, other) by {
            lemma_first_idx_push(s, c, other);
        }
        assert forall|other: Seq<char>| other != id implies #[trigger] members_of(t, other)
            == members_of(s, other) by {
            lemma_first_idx_push(s, c, other);
            lemma_first_idx(s, other);
            if has_clan(s, other) {
                let m = first_idx(s, other);
                assert(t[m] == s[m]);
            }
        }
    }
}

/// The first clan attaining the largest member count is a real index, no
/// clan has more members than it, and every earlier clan has strictly
/// fewer.
pub proof fn lemma_largest_idx(s: Seq<ClanView>)
    requires
        s.len() > 0,
    ensures
        0 <= largest_idx(s) < s.len(),
        forall|k: int| 0 <= k < s.len() ==> #[trigger] s[k].members.len()
            <= s[largest_idx(s)].members.len(),
        forall|k: int| 0 <= k < largest_idx(s) ==> #[trigger] s[k].members.len()
            < s[largest_idx(s)].members.len(),
    decreases s.len(),
{
    if s.len() > 1 {
        lemma_largest_idx(s.drop_last());
        assert(forall|k: int| 0 <= k < s.len() - 1 ==> s.drop_last()[k] == s[k]);
    }
}

/// Adding a member under a fresh clan id creates exactly one clan, holding
/// exactly that member; adding under the same id again appends to that same
/// clan and creates no duplicate clan: the clan count stays the same.
pub proof fn lemma_add_member_idempotent_structure(
    s: Seq<ClanView>,
    id: Seq<char>,
    first: Seq<char>,
    second: Seq<char>,
)
    requires
        !has_clan(s, id),
    ensures
        ({
            let once = add_member_spec(s, id, first);
            let twice = add_member_spec(once, id, second);
            &&& once.len() == s.len() + 1
            &&& has_clan(once, id)
            &&& members_of(once, id) == seq![first]
            &&& twice.len() == once.len()
            &&& members_of(twice, id) == seq![first, second]
        }),
{
    let once = add_member_spec(s, id, first);
    let twice = add_member_spec(once, id, second);
    lemma_add_member_spec(s, id, first);
    lemma_add_member_spec(once, id, second);
    assert(members_of(s, id).push(first) =~= seq![first]);
    assert(members_of(once, id).push(second) =~= seq![first, second]);
}

impl ClanSystem {
    /// Construct an empty registry: no clans at all.
    pub fn new() -> (cs: ClanSystem)
        ensures
            cs@ == Seq::<ClanView>::empty(),
    {
        let cs = ClanSystem { clans: Vec::new() };
        proof {
            assert(cs@ =~= Seq::<ClanView>::empty());
        }
        cs
    }

    /// Find the index of the first clan carrying this id, if any.
    pub(crate) fn find_clan_index(&self, clan_id: &str) -> (r: Option<usize>)
        ensures
            r is Some ==> r.unwrap() as int == first_idx(self@, clan_id@),
            r is None ==> first_idx(self@, clan_id@) == -1,
    {
        let n = self.clans.len();
        let mut i: usize = 0;
        while i < n
            invariant
                n == self.clans@.len(),
                i <= n,
                forall|k: int| 0 <= k < i ==> #[trigger] self@[k].id != clan_id@,
            decreases n - i,
        {
            if str_eq(self.clans[i].id.as_str(), clan_id) {
                proof {
                    lemma_first_idx(self@, clan_id@);
                    assert(self@[i as int].id == clan_id@);
                    let v = first_idx(self@, clan_id@);
                    assert(v != -1);
                    assert(!(v < i as int));
                    assert(!(v > i as int));
                }
                return Some(i);
            }
            i = i + 1;
        }
        proof {
            lemma_first_idx(self@, clan_id@);
            let v = first_idx(self@, clan_id@);
            if v != -1 {
                assert(self@[v].id == clan_id@);
            }
        }
        None
    }

    /// The member names of the clan carrying this id, in the order they
    /// were added, or an empty list if no clan carries it. Absence is a
    /// normal outcome here, not an error.
    pub fn get_clan_member_names(&self, clan_id: &str) -> (names: Vec<String>)
        ensures
            names.deep_view() == members_of(self@, clan_id@),
    {
        match self.find_clan_index(clan_id) {
            Some(i) => {
                proof {
                    lemma_first_idx(self@, clan_id@);
                }
                clone_names(&self.clans[i].members)
            },
            None => {
                let names: Vec<String> = Vec::new();
                proof {
                    assert(names.deep_view() =~= Seq::<Seq<char>>::empty());
                }
                names
            },
        }
    }

    /// The number of clans created so far.
    pub fn get_clan_count(&self) -> (n: usize)
        ensures
            n == self@.len(),
    {
        self.clans.len()
    }

    /// The number of members of the clan carrying this id, or zero if no
    /// clan carries it.
    pub fn get_clan_member_count(&self, clan_id: &str) -> (n: usize)
        ensures
            n == members_of(self@, clan_id@).len(),
    {
        match self.find_clan_index(clan_id) {
            Some(i) => {
                proof {
                    lemma_first_idx(self@, clan_id@);
                }
                self.clans[i].members.len()
            },
            None => 0,
        }
    }

    /// The id of the clan with the most members, or nothing if no clan
    /// exists. Of several clans attaining the maximum, the one created
    /// first is returned.
    pub fn get_largest_clan_id(&self) -> (r: Option<String>)
        ensures
            r is None <==> self@.len() == 0,
            self@.len() > 0 ==> r.unwrap()@ == self@[largest_idx(self@)].id,
            forall|k: int| 0 <= k < self@.len() ==> #[trigger] self@[k].members.len()
                <= self@[largest_idx(self@)].members.len(),
    {
        let n = self.clans.len();
        if n == 0 {
            return None;
        }
        let mut best: usize = 0;
        let mut i: usize = 1;
        while i < n
            invariant
                n == self.clans@.len(),
                1 <= i <= n,
                best < i,
                best as int == largest_idx(self@.take(i as int)),
            decreases n - i,
        {
            proof {
                let t = self@.take(i as int + 1);
                assert(t.drop_last() =~= self@.take(i as int));
                assert(t.last() == self@[i as int]);
            }
            if self.clans[i].members.len() > self.clans[best].members.len() {
                best = i;
            }
            i = i + 1;
        }
        proof {
            assert(self@.take(n as int) =~= self@);
            lemma_largest_idx(self@);
        }
        Some(self.clans[best].id.clone())
    }

    /// Add a member name under a clan id, creating the clan if the id is
    /// unseen. The name is appended to the clan's member list; duplicate
    /// names are kept.
    pub fn add_member_to_clan(&mut self, clan_id: &str, crab_name: &str)
        ensures
            final(self)@ == add_member_spec(old(self)@, clan_id@, crab_name@),
            has_clan(final(self)@, clan_id@),
            members_of(final(self)@, clan_id@) == members_of(old(self)@, clan_id@).push(
                crab_name@,
            ),
            final(self)@.len() == if has_clan(old(self)@, clan_id@) {
                old(self)@.len() as int
            } else {
                old(self)@.len() as int + 1
            },
            forall|other: Seq<char>| other != clan_id@ ==> #[trigger] has_clan(
                final(self)@,
                other,
            ) == has_clan(old(self)@, other),
            forall|other: Seq<char>| other != clan_id@ ==> #[trigger] members_of(
                final(self)@,
                other,
            ) == members_of(old(self)@, other),
    {
        let name = String::from_str(crab_name);
        let found = self.find_clan_index(clan_id);
        match found {
            Some(i) => {
                proof {
                    lemma_first_idx(self@, clan_id@);
                }
                self.clans[i].members.push(name);
                proof {
                    let s = old(self)@;
                    let k = i as int;
                    let c = ClanView {
                        id: s[k].id,
                        members: s[k].members.push(crab_name@),
                    };
                    assert(self.clans@[k]@.members =~= s[k].members.push(crab_name@));
                    assert(self.clans@[k]@ =~= c);
                    assert(self@ =~= s.update(k, c));
                }
            },
            None => {
                let mut members: Vec<String> = Vec::new();
                members.push(name);
                let clan = Clan { id: String::from_str(clan_id), members };
                self.clans.push(clan);
                proof {
                    let s = old(self)@;
                    let c = ClanView { id: clan_id@, members: seq![crab_name@] };
                    assert(self.clans@[s.len() as int]@.members =~= seq![crab_name@]);
                    assert(self.clans@[s.len() as int]@ =~= c);
                    assert(self@ =~= s.push(c));
                }
            },
        }
        proof {
            lemma_add_member_spec(old(self)@, clan_id@, crab_name@);
        }
    }
}

/// Copy a list of names element by element.
fn clone_names(v: &Vec<String>) -> (r: Vec<String>)
    ensures
        r.deep_view() == v.deep_view(),
{
    let mut r: Vec<String> = Vec::new();
    let n = v.len();
    let mut i: usize = 0;
    while i < n
        invariant
            n == v@.len(),
            i <= n,
            r@.len() == i,
            forall|k: int| 0 <= k < i ==> #[trigger] r@[k]@ == v@[k]@,
        decreases n - i,
    {
        r.push(v[i].clone());
        i = i + 1;
    }
    proof {
        assert(r.deep_view() =~= v.deep_view());
    }
    r
}

} // verus!
