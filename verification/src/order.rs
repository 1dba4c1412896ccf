//! The order in which plugins run.
//!
//! The chain order is the user's explicit order first, then the manifests' `order` hints,
//! then the names. It does not depend on the order in which the plugins were found.
use vstd::prelude::*;

use crate::plugin_api::Plugin;
use crate::text::{chars_of, same_text, texts};

verus! {

// ---- Texts in order ------------------------------------------------------------

/// `a` comes before `b`, character by character.
pub open spec fn text_less(a: Seq<char>, b: Seq<char>) -> bool
    decreases a.len(),
{
    if b.len() == 0 {
        false
    } else if a.len() == 0 {
        true
    } else if a[0] != b[0] {
        a[0] < b[0]
    } else {
        text_less(a.drop_first(), b.drop_first())
    }
}

/// No text comes before itself.
proof fn lemma_text_irreflexive(a: Seq<char>)
    ensures
        !text_less(a, a),
    decreases a.len(),
{
    if a.len() > 0 {
        lemma_text_irreflexive(a.drop_first());
    }
}

proof fn lemma_text_transitive(a: Seq<char>, b: Seq<char>, c: Seq<char>)
    requires
        text_less(a, b),
        text_less(b, c),
    ensures
        text_less(a, c),
    decreases a.len(),
{
    if a.len() > 0 && b.len() > 0 && c.len() > 0 && a[0] == b[0] && b[0] == c[0] {
        lemma_text_transitive(a.drop_first(), b.drop_first(), c.drop_first());
    }
}

/// Of two texts one comes first.
proof fn lemma_text_total(a: Seq<char>, b: Seq<char>)
    ensures
        a == b || text_less(a, b) || text_less(b, a),
    decreases a.len(),
{
    if a.len() > 0 && b.len() > 0 && a[0] == b[0] {
        lemma_text_total(a.drop_first(), b.drop_first());
        if a.drop_first() == b.drop_first() {
            assert(a =~= seq![a[0]] + a.drop_first());
            assert(b =~= seq![b[0]] + b.drop_first());
        }
    } else if a.len() == 0 && b.len() == 0 {
        assert(a =~= b);
    }
}

/// Whether `a` comes before `b`.
fn comes_before(a: &str, b: &str) -> (yes: bool)
    ensures
        yes == text_less(a@, b@),
{
    let x = chars_of(a);
    let y = chars_of(b);
    let mut i: usize = 0;
    assert(x@.skip(0) =~= x@);
    assert(y@.skip(0) =~= y@);
    loop
        invariant
            i <= x@.len(),
            i <= y@.len(),
            text_less(a@, b@) == text_less(x@.skip(i as int), y@.skip(i as int)),
        decreases x@.len() - i,
    {
        if i >= y.len() {
            return false;
        }
        if i >= x.len() {
            return true;
        }
        assert(x@.skip(i as int).drop_first() =~= x@.skip(i + 1));
        assert(y@.skip(i as int).drop_first() =~= y@.skip(i + 1));
        if x[i] != y[i] {
            return x[i] < y[i];
        }
        i = i + 1;
    }
}

// ---- Entries in order ----------------------------------------------------------

/// A plugin to order: its name and its manifest's `order`.
#[verifier::ext_equal]
pub struct EntryModel {
    pub name: Seq<char>,
    pub order: i32,
}

/// What a list of names and orders is.
pub open spec fn entry_models(entries: Seq<(String, i32)>) -> Seq<EntryModel> {
    entries.map_values(|e: (String, i32)| EntryModel { name: e.0@, order: e.1 })
}

/// Where the user listed a name for the first time; unlisted names come after all others.
pub open spec fn rank(user: Seq<Seq<char>>, name: Seq<char>) -> nat
    decreases user.len(),
{
    if user.len() == 0 {
        0
    } else if user[0] == name {
        0
    } else {
        1 + rank(user.drop_first(), name)
    }
}

/// `a` runs before `b`: by the user's order, then by the manifest's, then by name.
pub open spec fn runs_before(user: Seq<Seq<char>>, a: EntryModel, b: EntryModel) -> bool {
    if rank(user, a.name) != rank(user, b.name) {
        rank(user, a.name) < rank(user, b.name)
    } else if a.order != b.order {
        a.order < b.order
    } else {
        text_less(a.name, b.name)
    }
}

/// The entry at `i` runs before the entry at `j`; of two that tie, the first one does.
pub open spec fn index_before(
    user: Seq<Seq<char>>,
    entries: Seq<EntryModel>,
    i: int,
    j: int,
) -> bool {
    runs_before(user, entries[i], entries[j]) || (!runs_before(user, entries[j], entries[i]) && i
        < j)
}

/// `order` lists the indices of all entries, each once, in the order in which they run.
pub open spec fn chain_order(
    user: Seq<Seq<char>>,
    entries: Seq<EntryModel>,
    order: Seq<usize>,
) -> bool {
    &&& order.len() == entries.len()
    &&& forall|i: int| 0 <= i < order.len() ==> (#[trigger] order[i]) < entries.len()
    &&& forall|i: int, j: int|
        0 <= i < j < order.len() ==> index_before(
            user,
            entries,
            #[trigger] order[i] as int,
            #[trigger] order[j] as int,
        )
}

proof fn lemma_runs_total(user: Seq<Seq<char>>, a: EntryModel, b: EntryModel)
    ensures
        !(runs_before(user, a, b) && runs_before(user, b, a)),
        !runs_before(user, a, a),
        !runs_before(user, a, b) && !runs_before(user, b, a) ==> a == b,
{
    lemma_text_irreflexive(a.name);
    lemma_text_total(a.name, b.name);
    if text_less(a.name, b.name) && text_less(b.name, a.name) {
        lemma_text_transitive(a.name, b.name, a.name);
    }
}

proof fn lemma_runs_transitive(
    user: Seq<Seq<char>>,
    a: EntryModel,
    b: EntryModel,
    c: EntryModel,
)
    requires
        runs_before(user, a, b),
        runs_before(user, b, c),
    ensures
        runs_before(user, a, c),
{
    if text_less(a.name, b.name) && text_less(b.name, c.name) {
        lemma_text_transitive(a.name, b.name, c.name);
    }
}

proof fn lemma_index_transitive(
    user: Seq<Seq<char>>,
    entries: Seq<EntryModel>,
    i: int,
    j: int,
    k: int,
)
    requires
        index_before(user, entries, i, j),
        index_before(user, entries, j, k),
    ensures
        index_before(user, entries, i, k),
{
    let a = entries[i];
    let b = entries[j];
    let c = entries[k];
    lemma_runs_total(user, a, b);
    lemma_runs_total(user, b, c);
    lemma_runs_total(user, a, c);
    if runs_before(user, a, b) && runs_before(user, b, c) {
        lemma_runs_transitive(user, a, b, c);
    }
}

/// No name has a rank beyond the list's end, and unlisted ones stand there.
proof fn lemma_rank(user: Seq<Seq<char>>, name: Seq<char>)
    ensures
        rank(user, name) <= user.len(),
        user.contains(name) <==> rank(user, name) < user.len(),
    decreases user.len(),
{
    if user.len() > 0 {
        lemma_rank(user.drop_first(), name);
        if user.contains(name) && user[0] != name {
            let i = choose|i: int| 0 <= i < user.len() && user[i] == name;
            assert(user.drop_first()[i - 1] == name);
        }
        if user.drop_first().contains(name) {
            let i = choose|i: int|
                0 <= i < user.drop_first().len() && user.drop_first()[i] == name;
            assert(user[i + 1] == name);
        }
    }
}

/// What the user listed runs before what the user did not list, whatever the manifests say.
pub proof fn law_user_order_wins(user: Seq<Seq<char>>, a: EntryModel, b: EntryModel)
    requires
        user.contains(a.name),
        !user.contains(b.name),
    ensures
        runs_before(user, a, b),
        !runs_before(user, b, a),
{
    lemma_rank(user, a.name);
    lemma_rank(user, b.name);
}

/// Of two that the user did not list, the one with the lower order hint runs first, and with the
/// same hint the one whose name is less.
pub proof fn law_hints_and_names_decide(user: Seq<Seq<char>>, a: EntryModel, b: EntryModel)
    requires
        !user.contains(a.name),
        !user.contains(b.name),
    ensures
        a.order < b.order ==> runs_before(user, a, b) && !runs_before(user, b, a),
        a.order == b.order ==> runs_before(user, a, b) == text_less(a.name, b.name),
{
    lemma_rank(user, a.name);
    lemma_rank(user, b.name);
}

/// One text is less than another where it has the lesser character at the first place at which
/// they differ, or where the other goes on after it.
pub proof fn law_text_order(same: Seq<char>, x: char, y: char, a: Seq<char>, b: Seq<char>)
    ensures
        x != y ==> text_less(same + seq![x] + a, same + seq![y] + b) == (x < y),
        text_less(same, same + b) == (b.len() > 0),
        !text_less(same + b, same),
    decreases same.len(),
{
    let one = same + seq![x] + a;
    let two = same + seq![y] + b;
    if same.len() == 0 {
        assert(one[0] == x && two[0] == y);
        assert(same + b =~= b);
    } else {
        let rest = same.drop_first();
        law_text_order(rest, x, y, a, b);
        assert(one.drop_first() =~= rest + seq![x] + a);
        assert(two.drop_first() =~= rest + seq![y] + b);
        assert((same + b).drop_first() =~= rest + b);
    }
}

/// The chain is in order: every plugin is in it once, none stands before one that runs before
/// it, and of two alike the one that was found first stands first.
pub proof fn law_chain_in_order(
    user: Seq<Seq<char>>,
    entries: Seq<EntryModel>,
    order: Seq<usize>,
    i: int,
    j: int,
)
    requires
        chain_order(user, entries, order),
        0 <= i < j < order.len(),
    ensures
        order.len() == entries.len(),
        order[i] < entries.len() && order[j] < entries.len(),
        order[i] != order[j],
        !runs_before(user, entries[order[j] as int], entries[order[i] as int]),
        entries[order[i] as int] == entries[order[j] as int] ==> order[i] < order[j],
{
    let a = entries[order[i] as int];
    let b = entries[order[j] as int];
    assert(index_before(user, entries, order[i] as int, order[j] as int));
    lemma_runs_total(user, a, b);
}

/// What the user listed runs in the order of the list, whatever the manifests say.
pub proof fn law_listed_in_given_order(
    user: Seq<Seq<char>>,
    i: int,
    j: int,
    a: EntryModel,
    b: EntryModel,
)
    requires
        0 <= i < j < user.len(),
        user.no_duplicates(),
        a.name == user[i],
        b.name == user[j],
    ensures
        runs_before(user, a, b),
        !runs_before(user, b, a),
{
    lemma_rank_at(user, i);
    lemma_rank_at(user, j);
}

proof fn lemma_rank_at(user: Seq<Seq<char>>, i: int)
    requires
        0 <= i < user.len(),
        user.no_duplicates(),
    ensures
        rank(user, user[i]) == i,
    decreases user.len(),
{
    if i > 0 {
        assert(user[0] != user[i]);
        assert(user.drop_first()[i - 1] == user[i]);
        lemma_rank_at(user.drop_first(), i - 1);
    }
}

/// A name that no entry has makes no difference wherever the user lists it.
pub proof fn law_unknown_names_ignored(
    user: Seq<Seq<char>>,
    stranger: Seq<char>,
    a: EntryModel,
    b: EntryModel,
)
    requires
        a.name != stranger,
        b.name != stranger,
    ensures
        runs_before(seq![stranger] + user, a, b) == runs_before(user, a, b),
{
    assert((seq![stranger] + user).drop_first() =~= user);
}

/// Where the user listed a name.
fn rank_of(user: &Vec<String>, name: &str) -> (at: usize)
    ensures
        at == rank(texts(user@), name@),
{
    let ghost all = texts(user@);
    let mut i: usize = 0;
    assert(all.skip(0) =~= all);
    while i < user.len()
        invariant
            i <= user@.len(),
            all == texts(user@),
            rank(all, name@) == i + rank(all.skip(i as int), name@),
        decreases user@.len() - i,
    {
        assert(all.skip(i as int)[0] == user@[i as int]@);
        if same_text(user[i].as_str(), name) {
            return i;
        }
        assert(all.skip(i as int).drop_first() =~= all.skip(i + 1));
        i = i + 1;
    }
    i
}

/// Whether one entry runs before another.
fn entry_before(user: &Vec<String>, a: &(String, i32), b: &(String, i32)) -> (yes: bool)
    ensures
        yes == runs_before(
            texts(user@),
            EntryModel { name: a.0@, order: a.1 },
            EntryModel { name: b.0@, order: b.1 },
        ),
{
    let x = rank_of(user, a.0.as_str());
    let y = rank_of(user, b.0.as_str());
    if x != y {
        x < y
    } else if a.1 != b.1 {
        a.1 < b.1
    } else {
        comes_before(a.0.as_str(), b.0.as_str())
    }
}

/// Compute the chain order as a permutation of indices into `entries` (`(name, order)`
/// pairs): the position in `user_order` (unlisted plugins last), then the manifest `order`
/// hint (lower runs earlier), then the name.
pub fn ordered_indices(entries: &Vec<(String, i32)>, user_order: &Vec<String>) -> (order: Vec<usize>)
    ensures
        chain_order(texts(user_order@), entry_models(entries@), order@),
        order@.no_duplicates(),
{
    let ghost user = texts(user_order@);
    let ghost all = entry_models(entries@);
    let mut order: Vec<usize> = Vec::new();
    let mut i: usize = 0;
    while i < entries.len()
        invariant
            i <= entries@.len(),
            user == texts(user_order@),
            all == entry_models(entries@),
            order@.len() == i,
            forall|k: int| 0 <= k < i ==> (#[trigger] order@[k]) < i,
            forall|k: int, l: int|
                0 <= k < l < i ==> index_before(
                    user,
                    all,
                    #[trigger] order@[k] as int,
                    #[trigger] order@[l] as int,
                ),
        decreases entries@.len() - i,
    {
        let ghost before = order@;
        let mut at: usize = 0;
        while at < order.len() && !entry_before(
            user_order,
            &entries[i],
            &entries[order[at]],
        )
            invariant
                i < entries@.len(),
                at <= order@.len() == i,
                order@ == before,
                user == texts(user_order@),
                all == entry_models(entries@),
                forall|k: int| 0 <= k < i ==> (#[trigger] order@[k]) < i,
                forall|k: int|
                    0 <= k < at ==> !runs_before(
                        user,
                        all[i as int],
                        all[#[trigger] before[k] as int],
                    ),
            decreases order@.len() - at,
        {
            at = at + 1;
        }
        order.insert(at, i);
        proof {
            lemma_inserted(user, all, before, at as int, i);
        }
        i = i + 1;
    }
    assert forall|k: int, l: int| 0 <= k < order@.len() && 0 <= l < order@.len() && k
        != l implies order@[k] != order@[l] by {
        if k < l {
            assert(index_before(user, all, order@[k] as int, order@[l] as int));
            lemma_runs_total(user, all[order@[k] as int], all[order@[l] as int]);
        } else {
            assert(index_before(user, all, order@[l] as int, order@[k] as int));
            lemma_runs_total(user, all[order@[k] as int], all[order@[l] as int]);
        }
    }
    order
}

/// Putting the next index before the first entry that it runs before keeps the order.
proof fn lemma_inserted(
    user: Seq<Seq<char>>,
    all: Seq<EntryModel>,
    before: Seq<usize>,
    at: int,
    i: usize,
)
    requires
        i < all.len(),
        before.len() == i,
        0 <= at <= before.len(),
        forall|k: int| 0 <= k < i ==> (#[trigger] before[k]) < i,
        forall|k: int, l: int|
            0 <= k < l < i ==> index_before(
                user,
                all,
                #[trigger] before[k] as int,
                #[trigger] before[l] as int,
            ),
        forall|k: int|
            0 <= k < at ==> !runs_before(user, all[i as int], all[#[trigger] before[k] as int]),
        at < before.len() ==> runs_before(user, all[i as int], all[before[at] as int]),
    ensures
        forall|k: int| 0 <= k < i + 1 ==> (#[trigger] before.insert(at, i)[k]) < i + 1,
        forall|k: int, l: int|
            0 <= k < l < i + 1 ==> index_before(
                user,
                all,
                #[trigger] before.insert(at, i)[k] as int,
                #[trigger] before.insert(at, i)[l] as int,
            ),
{
    let after = before.insert(at, i);
    assert forall|k: int, l: int| 0 <= k < l < i + 1 implies index_before(
        user,
        all,
        #[trigger] after[k] as int,
        #[trigger] after[l] as int,
    ) by {
        if l == at {
            lemma_runs_total(user, all[i as int], all[before[k] as int]);
        } else if k == at {
            assert(index_before(user, all, i as int, before[at] as int)) by {
                lemma_runs_total(user, all[i as int], all[before[at] as int]);
            }
            if l - 1 > at {
                lemma_index_transitive(
                    user,
                    all,
                    i as int,
                    before[at] as int,
                    before[l - 1] as int,
                );
            }
        } else {
            let x = if k < at {
                k
            } else {
                k - 1
            };
            let y = if l < at {
                l
            } else {
                l - 1
            };
            assert(after[k] == before[x]);
            assert(after[l] == before[y]);
        }
    }
}

// ---- The order is one and the same ---------------------------------------------

/// The entries in the order in which they run.
pub open spec fn arranged(entries: Seq<EntryModel>, order: Seq<usize>) -> Seq<EntryModel> {
    order.map_values(|i: usize| entries[i as int])
}

/// No two entries have one name.
pub open spec fn distinct_names(entries: Seq<EntryModel>) -> bool {
    forall|i: int, j: int|
        0 <= i < entries.len() && 0 <= j < entries.len() && i != j ==> (#[trigger] entries[i]).name
            != (#[trigger] entries[j]).name
}

/// Each entry runs before all that follow it.
spec fn in_order(user: Seq<Seq<char>>, list: Seq<EntryModel>) -> bool {
    forall|i: int, j: int|
        0 <= i < j < list.len() ==> runs_before(user, #[trigger] list[i], #[trigger] list[j])
}

/// Two lists in order with the same members are the same list.
proof fn lemma_one_order(user: Seq<Seq<char>>, a: Seq<EntryModel>, b: Seq<EntryModel>)
    requires
        in_order(user, a),
        in_order(user, b),
        forall|e: EntryModel| a.contains(e) <==> b.contains(e),
    ensures
        a == b,
    decreases a.len(),
{
    if a.len() == 0 {
        if b.len() > 0 {
            assert(b.contains(b[0]));
            assert(a.contains(b[0]));
        }
        assert(a =~= b);
    } else {
        assert(a.contains(a[0]));
        assert(b.contains(a[0]));
        let j = choose|j: int| 0 <= j < b.len() && b[j] == a[0];
        assert(b.contains(b[0]));
        assert(a.contains(b[0]));
        let k = choose|k: int| 0 <= k < a.len() && a[k] == b[0];
        if a[0] != b[0] {
            assert(runs_before(user, b[0], b[j]));
            assert(runs_before(user, a[0], a[k]));
            lemma_runs_total(user, a[0], b[0]);
        }
        let x = a.drop_first();
        let y = b.drop_first();
        assert forall|e: EntryModel| x.contains(e) <==> y.contains(e) by {
            lemma_runs_total(user, a[0], a[0]);
            if x.contains(e) {
                let i = choose|i: int| 0 <= i < x.len() && x[i] == e;
                assert(a[i + 1] == e);
                assert(runs_before(user, a[0], a[i + 1]));
                assert(b.contains(e));
                let l = choose|l: int| 0 <= l < b.len() && b[l] == e;
                assert(y[l - 1] == e);
            }
            if y.contains(e) {
                let i = choose|i: int| 0 <= i < y.len() && y[i] == e;
                assert(b[i + 1] == e);
                assert(runs_before(user, b[0], b[i + 1]));
                assert(a.contains(e));
                let l = choose|l: int| 0 <= l < a.len() && a[l] == e;
                assert(x[l - 1] == e);
            }
        }
        assert forall|i: int, j: int| 0 <= i < j < x.len() implies runs_before(
            user,
            #[trigger] x[i],
            #[trigger] x[j],
        ) by {
            assert(runs_before(user, a[i + 1], a[j + 1]));
        }
        assert forall|i: int, j: int| 0 <= i < j < y.len() implies runs_before(
            user,
            #[trigger] y[i],
            #[trigger] y[j],
        ) by {
            assert(runs_before(user, b[i + 1], b[j + 1]));
        }
        lemma_one_order(user, x, y);
        assert(a =~= seq![a[0]] + x);
        assert(b =~= seq![b[0]] + y);
    }
}

/// An order that lists each index once leaves no entry out.
proof fn lemma_arranged_members(user: Seq<Seq<char>>, entries: Seq<EntryModel>, order: Seq<usize>)
    requires
        chain_order(user, entries, order),
        distinct_names(entries),
    ensures
        in_order(user, arranged(entries, order)),
        forall|e: EntryModel| arranged(entries, order).contains(e) <==> entries.contains(e),
{
    let list = arranged(entries, order);
    assert forall|i: int, j: int| 0 <= i < j < order.len() implies order[i] != order[j] by {
        assert(index_before(user, entries, order[i] as int, order[j] as int));
        lemma_runs_total(user, entries[order[i] as int], entries[order[j] as int]);
    }
    assert forall|i: int, j: int| 0 <= i < j < list.len() implies runs_before(
        user,
        #[trigger] list[i],
        #[trigger] list[j],
    ) by {
        let x = order[i] as int;
        let y = order[j] as int;
        assert(list[i] == entries[x] && list[j] == entries[y]);
        assert(index_before(user, entries, x, y));
        lemma_runs_total(user, entries[x], entries[y]);
        assert(entries[x].name != entries[y].name);
    }
    assert forall|e: EntryModel| list.contains(e) <==> entries.contains(e) by {
        if list.contains(e) {
            let i = choose|i: int| 0 <= i < list.len() && list[i] == e;
            assert(entries[order[i] as int] == e);
        }
        if entries.contains(e) {
            let i = choose|i: int| 0 <= i < entries.len() && entries[i] == e;
            lemma_every_index(order, entries.len() as int, i);
            let k = choose|k: int| 0 <= k < order.len() && order[k] == i;
            assert(list[k] == e);
        }
    }
}

/// As many different indices below a bound as the bound are all of them.
proof fn lemma_every_index(order: Seq<usize>, n: int, i: int)
    requires
        order.len() == n,
        forall|k: int| 0 <= k < order.len() ==> (#[trigger] order[k]) < n,
        forall|k: int, l: int| 0 <= k < l < order.len() ==> order[k] != order[l],
        0 <= i < n,
    ensures
        exists|k: int| 0 <= k < order.len() && order[k] == i,
{
    let ints = order.map_values(|x: usize| x as int);
    assert forall|k: int, l: int|
        0 <= k < ints.len() && 0 <= l < ints.len() && k != l implies ints[k] != ints[l] by {
        if k < l {
            assert(order[k] != order[l]);
        } else {
            assert(order[l] != order[k]);
        }
    }
    ints.unique_seq_to_set();
    let found = ints.to_set();
    let range = vstd::set_lib::set_int_range(0, n);
    vstd::set_lib::lemma_int_range(0, n);
    assert(found.subset_of(range)) by {
        assert forall|x: int| found.contains(x) implies range.contains(x) by {
            let k = choose|k: int| 0 <= k < ints.len() && ints[k] == x;
            assert(order[k] < n);
        }
    }
    vstd::set_lib::lemma_subset_equality(found, range);
    assert(found.contains(i));
    let k = choose|k: int| 0 <= k < ints.len() && ints[k] == i;
    assert(order[k] == i);
}

/// The chain does not depend on the order in which the plugins were found: two lists of the
/// same plugins, each name once, are arranged alike.
pub proof fn law_order_is_one(
    user: Seq<Seq<char>>,
    one: Seq<EntryModel>,
    one_order: Seq<usize>,
    two: Seq<EntryModel>,
    two_order: Seq<usize>,
)
    requires
        distinct_names(one),
        distinct_names(two),
        forall|e: EntryModel| one.contains(e) <==> two.contains(e),
        chain_order(user, one, one_order),
        chain_order(user, two, two_order),
    ensures
        arranged(one, one_order) == arranged(two, two_order),
{
    lemma_arranged_members(user, one, one_order);
    lemma_arranged_members(user, two, two_order);
    let first = arranged(one, one_order);
    let second = arranged(two, two_order);
    assert forall|e: EntryModel| first.contains(e) <==> second.contains(e) by {
        assert(one.contains(e) <==> two.contains(e));
    }
    lemma_one_order(user, first, second);
}

// ---- Arranging -----------------------------------------------------------------

/// The items at the given indices, in the order of the indices.
pub fn rearrange<T>(items: Vec<T>, order: &Vec<usize>) -> (out: Vec<T>)
    requires
        order@.len() == items@.len(),
        forall|k: int| 0 <= k < order@.len() ==> (#[trigger] order@[k]) < items@.len(),
        order@.no_duplicates(),
    ensures
        out@.len() == items@.len(),
        forall|k: int| 0 <= k < out@.len() ==> (#[trigger] out@[k]) == items@[order@[k] as int],
{
    let ghost all = items@;
    let mut slots: Vec<Option<T>> = Vec::new();
    for item in it: items
        invariant
            it.seq() == all,
            slots@.len() == it.index(),
            forall|k: int| 0 <= k < it.index() ==> (#[trigger] slots@[k]) == Some(all[k]),
    {
        slots.push(Some(item));
    }
    let mut out: Vec<T> = Vec::new();
    let mut i: usize = 0;
    while i < order.len()
        invariant
            i <= order@.len(),
            order@.len() == all.len() == slots@.len(),
            forall|k: int| 0 <= k < order@.len() ==> (#[trigger] order@[k]) < all.len(),
            order@.no_duplicates(),
            out@.len() == i,
            forall|k: int| 0 <= k < i ==> (#[trigger] out@[k]) == all[order@[k] as int],
            forall|k: int|
                i <= k < order@.len() ==> slots@[(#[trigger] order@[k]) as int] == Some(
                    all[order@[k] as int],
                ),
        decreases order@.len() - i,
    {
        let mut slot: Option<T> = None;
        let at = order[i];
        slots.set_and_swap(at, &mut slot);
        match slot {
            Some(item) => {
                out.push(item);
            },
            None => {
                assert(false);
            },
        }
        i = i + 1;
    }
    out
}

/// The chain order of some plugins with their `order` hints.
pub open spec fn plugin_entries(entries: Seq<(i32, Box<dyn Plugin>)>) -> Seq<EntryModel> {
    Seq::new(
        entries.len(),
        |i: int| EntryModel { name: entries[i].1.name_text(), order: entries[i].0 },
    )
}

/// Order the transform chain deterministically (see [`ordered_indices`]).
pub fn load_plugins(entries: Vec<(i32, Box<dyn Plugin>)>, user_order: &Vec<String>) -> (chain: Vec<
    (i32, Box<dyn Plugin>),
>)
    ensures
        chain@.len() == entries@.len(),
        exists|order: Seq<usize>| #[trigger]
            chain_order(texts(user_order@), plugin_entries(entries@), order) && forall|k: int|
                0 <= k < chain@.len() ==> (#[trigger] chain@[k]) == entries@[order[k] as int],
{
    let mut keyed: Vec<(String, i32)> = Vec::new();
    let mut i: usize = 0;
    while i < entries.len()
        invariant
            i <= entries@.len(),
            keyed@.len() == i,
            forall|k: int|
                0 <= k < i ==> (#[trigger] keyed@[k]).0@ == entries@[k].1.name_text()
                    && keyed@[k].1 == entries@[k].0,
        decreases entries@.len() - i,
    {
        keyed.push((entries[i].1.name().to_owned(), entries[i].0));
        i = i + 1;
    }
    assert(entry_models(keyed@) =~= plugin_entries(entries@));
    let order = ordered_indices(&keyed, user_order);
    rearrange(entries, &order)
}

} // verus!
