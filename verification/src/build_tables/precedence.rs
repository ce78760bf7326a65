//! The order of precedences. Numeric precedences are ordered as numbers.
//! Named precedences, and rules named in an ordering, are ordered by the
//! grammar's orderings: each ordering lists entries from the highest to the
//! lowest. The rank of an entry is the length of the longest descent that
//! the orderings allow from it; an entry in no ordering has rank zero.
use vstd::prelude::*;
use crate::grammars::{orderings_model, PrecedenceEntry, PrecedenceEntryModel};
use crate::rules::{Precedence, PrecedenceModel};

verus! {

pub open spec fn larger(a: nat, b: nat) -> nat {
    if a >= b {
        a
    } else {
        b
    }
}

/// The length of the longest descent from `entry`, counted in entries, cut
/// off at `fuel` entries.
pub open spec fn height(orderings: Seq<Seq<PrecedenceEntryModel>>, entry: PrecedenceEntryModel, fuel: nat)
    -> nat
    decreases fuel, 0nat, 0nat,
{
    if fuel == 0 {
        0
    } else {
        1 + highest_in_lists(orderings, entry, (fuel - 1) as nat, orderings.len() as int)
    }
}

/// The greatest height of an entry that follows `entry` directly in one of
/// the first `k` orderings.
pub open spec fn highest_in_lists(
    orderings: Seq<Seq<PrecedenceEntryModel>>,
    entry: PrecedenceEntryModel,
    fuel: nat,
    k: int,
) -> nat
    decreases fuel, 2nat, k,
{
    if k <= 0 || k > orderings.len() {
        0
    } else {
        larger(
            highest_in_lists(orderings, entry, fuel, k - 1),
            highest_in_list(
                orderings,
                orderings[k - 1],
                entry,
                fuel,
                orderings[k - 1].len() as int - 1,
            ),
        )
    }
}

/// The greatest height of an entry that follows `entry` directly at one of
/// the first `j` places of `list`.
pub open spec fn highest_in_list(
    orderings: Seq<Seq<PrecedenceEntryModel>>,
    list: Seq<PrecedenceEntryModel>,
    entry: PrecedenceEntryModel,
    fuel: nat,
    j: int,
) -> nat
    decreases fuel, 1nat, j,
{
    if j <= 0 || j >= list.len() {
        0
    } else {
        let rest = highest_in_list(orderings, list, entry, fuel, j - 1);
        if list[j - 1] == entry {
            larger(rest, height(orderings, list[j], fuel))
        } else {
            rest
        }
    }
}

/// The number of entries in the first `k` orderings, or the greatest number
/// that can be held where there are more.
pub open spec fn entry_count(orderings: Seq<Seq<PrecedenceEntryModel>>, k: int) -> nat
    decreases k,
{
    if k <= 0 {
        0
    } else {
        let sum = entry_count(orderings, k - 1) + orderings[k - 1].len();
        if sum > usize::MAX - 1 {
            (usize::MAX - 1) as nat
        } else {
            sum
        }
    }
}

/// Whether `entry` stands in one of the first `k` orderings.
pub open spec fn occurs_in(orderings: Seq<Seq<PrecedenceEntryModel>>, entry: PrecedenceEntryModel, k: int)
    -> bool
    decreases k,
{
    if k <= 0 {
        false
    } else {
        occurs_in(orderings, entry, k - 1) || orderings[k - 1].contains(entry)
    }
}

/// The rank of `entry`: zero where it stands in no ordering.
pub open spec fn rank(orderings: Seq<Seq<PrecedenceEntryModel>>, entry: PrecedenceEntryModel) -> nat {
    if occurs_in(orderings, entry, orderings.len() as int) {
        height(orderings, entry, entry_count(orderings, orderings.len() as int))
    } else {
        0
    }
}

/// Whether a descent from one of the first `j` entries of `list` is longer
/// than the orderings have entries, as only a descent that comes back to an
/// entry can be.
pub open spec fn descends_without_end_in(
    orderings: Seq<Seq<PrecedenceEntryModel>>,
    list: Seq<PrecedenceEntryModel>,
    j: int,
) -> bool
    decreases j,
{
    if j <= 0 {
        false
    } else {
        let total = entry_count(orderings, orderings.len() as int);
        descends_without_end_in(orderings, list, j - 1) || height(
            orderings,
            list[j - 1],
            total + 1,
        ) > total
    }
}

/// Whether the first `k` orderings hold an entry from which a descent comes
/// back to an entry.
pub open spec fn is_cyclic_within(orderings: Seq<Seq<PrecedenceEntryModel>>, k: int) -> bool
    decreases k,
{
    if k <= 0 {
        false
    } else {
        is_cyclic_within(orderings, k - 1) || descends_without_end_in(
            orderings,
            orderings[k - 1],
            orderings[k - 1].len() as int,
        )
    }
}

/// Whether the orderings put an entry both above and below another.
pub open spec fn is_cyclic(orderings: Seq<Seq<PrecedenceEntryModel>>) -> bool {
    is_cyclic_within(orderings, orderings.len() as int)
}

/// The place of a precedence in the order of precedences: its number, then
/// its rank. A named precedence has the number zero and the rank of its name;
/// an absent one has the number zero and the rank that the orderings give to
/// the rule `owner` in which it is absent.
pub open spec fn precedence_place(
    orderings: Seq<Seq<PrecedenceEntryModel>>,
    precedence: PrecedenceModel,
    owner: Seq<char>,
) -> (int, nat) {
    match precedence {
        PrecedenceModel::Integer(n) => (n, 0),
        PrecedenceModel::Name(name) => (0, rank(orderings, PrecedenceEntryModel::Name(name))),
        PrecedenceModel::Absent => (0, rank(orderings, PrecedenceEntryModel::Symbol(owner))),
    }
}

/// A height is at most the number of entries it is cut off at.
pub proof fn lemma_height_bounded(
    orderings: Seq<Seq<PrecedenceEntryModel>>,
    entry: PrecedenceEntryModel,
    fuel: nat,
)
    ensures
        height(orderings, entry, fuel) <= fuel,
    decreases fuel, 0nat, 0nat,
{
    if fuel > 0 {
        lemma_highest_in_lists_bounded(orderings, entry, (fuel - 1) as nat, orderings.len() as int);
    }
}

pub proof fn lemma_highest_in_lists_bounded(
    orderings: Seq<Seq<PrecedenceEntryModel>>,
    entry: PrecedenceEntryModel,
    fuel: nat,
    k: int,
)
    ensures
        highest_in_lists(orderings, entry, fuel, k) <= fuel,
    decreases fuel, 2nat, k,
{
    if !(k <= 0 || k > orderings.len()) {
        lemma_highest_in_lists_bounded(orderings, entry, fuel, k - 1);
        lemma_highest_in_list_bounded(
            orderings,
            orderings[k - 1],
            entry,
            fuel,
            orderings[k - 1].len() as int - 1,
        );
    }
}

pub proof fn lemma_highest_in_list_bounded(
    orderings: Seq<Seq<PrecedenceEntryModel>>,
    list: Seq<PrecedenceEntryModel>,
    entry: PrecedenceEntryModel,
    fuel: nat,
    j: int,
)
    ensures
        highest_in_list(orderings, list, entry, fuel, j) <= fuel,
    decreases fuel, 1nat, j,
{
    if !(j <= 0 || j >= list.len()) {
        lemma_highest_in_list_bounded(orderings, list, entry, fuel, j - 1);
        lemma_height_bounded(orderings, list[j], fuel);
    }
}

/// The length of the longest descent from `entry`, cut off at `fuel`.
pub fn entry_height(orderings: &Vec<Vec<PrecedenceEntry>>, entry: &PrecedenceEntry, fuel: usize)
    -> (h: usize)
    ensures
        h as nat == height(orderings_model(orderings@), entry@, fuel as nat),
        h <= fuel,
    decreases fuel, 0nat, 0nat,
{
    proof {
        lemma_height_bounded(orderings_model(orderings@), entry@, fuel as nat);
    }
    if fuel == 0 {
        return 0;
    }
    let ghost o = orderings_model(orderings@);
    let mut highest: usize = 0;
    let mut k: usize = 0;
    while k < orderings.len()
        invariant
            k <= orderings@.len(),
            fuel > 0,
            o == orderings_model(orderings@),
            highest as nat == highest_in_lists(o, entry@, (fuel - 1) as nat, k as int),
            highest <= fuel - 1,
        decreases orderings@.len() - k,
    {
        let list = &orderings[k];
        assert(o[k as int] == crate::grammars::entries_model(list@));
        let ghost l = o[k as int];
        let mut in_list: usize = 0;
        let mut j: usize = 0;
        proof {
            lemma_highest_in_lists_bounded(o, entry@, (fuel - 1) as nat, k + 1);
        }
        let last: usize = if list.len() == 0 {
            0
        } else {
            list.len() - 1
        };
        while j < last
            invariant
                j <= last,
                last == if list@.len() == 0 { 0 } else { list@.len() - 1 },
                fuel > 0,
                k < orderings@.len(),
                o == orderings_model(orderings@),
                l == o[k as int],
                l == crate::grammars::entries_model(list@),
                in_list as nat == highest_in_list(o, l, entry@, (fuel - 1) as nat, j as int),
                in_list <= fuel - 1,
            decreases list@.len() - j,
        {
            assert(l[j as int] == list@[j as int]@);
            assert(l[j + 1] == list@[j + 1]@);
            proof {
                lemma_highest_in_list_bounded(o, l, entry@, (fuel - 1) as nat, j + 1);
            }
            if list[j].same(entry) {
                let h = entry_height(orderings, &list[j + 1], fuel - 1);
                if h > in_list {
                    in_list = h;
                }
            }
            j += 1;
        }
        assert(in_list as nat == highest_in_list(o, l, entry@, (fuel - 1) as nat, l.len() - 1));
        if in_list > highest {
            highest = in_list;
        }
        k += 1;
    }
    1 + highest
}

/// The number of entries in the orderings, or the greatest number that can
/// be held where there are more.
pub fn count_entries(orderings: &Vec<Vec<PrecedenceEntry>>) -> (n: usize)
    ensures
        n as nat == entry_count(orderings_model(orderings@), orderings@.len() as int),
        n < usize::MAX,
{
    let ghost o = orderings_model(orderings@);
    let mut n: usize = 0;
    let mut k: usize = 0;
    while k < orderings.len()
        invariant
            k <= orderings@.len(),
            o == orderings_model(orderings@),
            n as nat == entry_count(o, k as int),
            n < usize::MAX,
        decreases orderings@.len() - k,
    {
        let more = orderings[k].len();
        assert(o[k as int].len() == more);
        if more > usize::MAX - 1 - n {
            n = usize::MAX - 1;
        } else {
            n = n + more;
        }
        k += 1;
    }
    n
}

/// Whether `entry` stands in one of the orderings.
pub fn entry_occurs(orderings: &Vec<Vec<PrecedenceEntry>>, entry: &PrecedenceEntry) -> (b: bool)
    ensures
        b == occurs_in(orderings_model(orderings@), entry@, orderings@.len() as int),
{
    let ghost o = orderings_model(orderings@);
    let mut k: usize = 0;
    while k < orderings.len()
        invariant
            k <= orderings@.len(),
            o == orderings_model(orderings@),
            !occurs_in(o, entry@, k as int),
        decreases orderings@.len() - k,
    {
        let list = &orderings[k];
        let ghost l = o[k as int];
        assert(l == crate::grammars::entries_model(list@));
        let mut j: usize = 0;
        while j < list.len()
            invariant
                j <= list@.len(),
                k < orderings@.len(),
                o == orderings_model(orderings@),
                l == o[k as int],
                l == crate::grammars::entries_model(list@),
                !occurs_in(o, entry@, k as int),
                forall|m: int| 0 <= m < j ==> #[trigger] l[m] != entry@,
            decreases list@.len() - j,
        {
            assert(l[j as int] == list@[j as int]@);
            if list[j].same(entry) {
                proof {
                    assert(l.contains(entry@));
                    lemma_occurs_stays(o, entry@, k + 1, o.len() as int);
                }
                return true;
            }
            j += 1;
        }
        assert(!l.contains(entry@));
        k += 1;
    }
    false
}

pub proof fn lemma_occurs_stays(
    orderings: Seq<Seq<PrecedenceEntryModel>>,
    entry: PrecedenceEntryModel,
    k: int,
    m: int,
)
    requires
        0 <= k <= m,
        occurs_in(orderings, entry, k),
    ensures
        occurs_in(orderings, entry, m),
    decreases m - k,
{
    if k < m {
        lemma_occurs_stays(orderings, entry, k, m - 1);
    }
}

/// The rank of `entry` in the orderings.
pub fn entry_rank(orderings: &Vec<Vec<PrecedenceEntry>>, entry: &PrecedenceEntry) -> (r: usize)
    ensures
        r as nat == rank(orderings_model(orderings@), entry@),
{
    if entry_occurs(orderings, entry) {
        entry_height(orderings, entry, count_entries(orderings))
    } else {
        0
    }
}

/// The place of `precedence`, stated in the rule `owner`, in the order of
/// precedences.
pub fn place_of(orderings: &Vec<Vec<PrecedenceEntry>>, precedence: &Precedence, owner: &String)
    -> (place: (i32, usize))
    ensures
        (place.0 as int, place.1 as nat) == precedence_place(
            orderings_model(orderings@),
            precedence@,
            owner@,
        ),
{
    match precedence {
        Precedence::Integer(n) => (*n, 0),
        Precedence::Name(name) => {
            let entry = PrecedenceEntry::Name(name.clone());
            (0, entry_rank(orderings, &entry))
        },
        Precedence::Absent => {
            let entry = PrecedenceEntry::Symbol(owner.clone());
            (0, entry_rank(orderings, &entry))
        },
    }
}

pub proof fn lemma_descends_stays(
    orderings: Seq<Seq<PrecedenceEntryModel>>,
    list: Seq<PrecedenceEntryModel>,
    j: int,
    m: int,
)
    requires
        0 <= j <= m,
        descends_without_end_in(orderings, list, j),
    ensures
        descends_without_end_in(orderings, list, m),
    decreases m - j,
{
    if j < m {
        lemma_descends_stays(orderings, list, j, m - 1);
    }
}

pub proof fn lemma_cyclic_stays(orderings: Seq<Seq<PrecedenceEntryModel>>, k: int, m: int)
    requires
        0 <= k <= m,
        is_cyclic_within(orderings, k),
    ensures
        is_cyclic_within(orderings, m),
    decreases m - k,
{
    if k < m {
        lemma_cyclic_stays(orderings, k, m - 1);
    }
}

/// Whether the orderings put an entry both above and below another.
pub fn orderings_are_cyclic(orderings: &Vec<Vec<PrecedenceEntry>>) -> (b: bool)
    ensures
        b == is_cyclic(orderings_model(orderings@)),
{
    let ghost o = orderings_model(orderings@);
    let total = count_entries(orderings);
    let mut k: usize = 0;
    while k < orderings.len()
        invariant
            k <= orderings@.len(),
            o == orderings_model(orderings@),
            total as nat == entry_count(o, o.len() as int),
            total < usize::MAX,
            !is_cyclic_within(o, k as int),
        decreases orderings@.len() - k,
    {
        let list = &orderings[k];
        let ghost l = o[k as int];
        assert(l == crate::grammars::entries_model(list@));
        let mut j: usize = 0;
        while j < list.len()
            invariant
                j <= list@.len(),
                k < orderings@.len(),
                o == orderings_model(orderings@),
                l == o[k as int],
                l == crate::grammars::entries_model(list@),
                total as nat == entry_count(o, o.len() as int),
                total < usize::MAX,
                !descends_without_end_in(o, l, j as int),
            decreases list@.len() - j,
        {
            assert(l[j as int] == list@[j as int]@);
            if entry_height(orderings, &list[j], total + 1) > total {
                proof {
                    assert(descends_without_end_in(o, l, j + 1));
                    lemma_descends_stays(o, l, j + 1, l.len() as int);
                    assert(is_cyclic_within(o, k + 1));
                    lemma_cyclic_stays(o, k + 1, o.len() as int);
                }
                return true;
            }
            j += 1;
        }
        k += 1;
    }
    false
}

} // verus!
