//! The persisted ledger: one entry per card identity, carrying the card's
//! memory state and its ignored flag, and the reconciliation of the ledger
//! against a freshly read card set.

use vstd::prelude::*;
use crate::deck::CardItem;
use crate::learning::MemoryState;

verus! {

/// The identity of a card: the name hash, and the content hash derived under
/// it. Two cards are the same card exactly when both components match.
#[derive(Debug, Clone, Copy, PartialEq, Eq, Hash, Structural)]
pub struct CardItemIdentify(pub u128, pub u128);

/// One ledger entry: a card identity, its memory state once the card has
/// been reviewed, and whether the card is permanently excluded from selection.
#[derive(Debug, PartialEq)]
pub struct LockItem {
    pub name: u128,
    pub content: u128,
    pub state: Option<MemoryState>,
    pub ignored: bool,
}

impl Clone for LockItem {
    fn clone(&self) -> (r: Self)
        ensures
            r == *self,
    {
        LockItem {
            name: self.name,
            content: self.content,
            state: match self.state {
                Some(ref m) => Some(m.clone()),
                None => None,
            },
            ignored: self.ignored,
        }
    }
}

/// The identity a ledger entry carries.
pub open spec fn item_id(item: LockItem) -> CardItemIdentify {
    CardItemIdentify(item.name, item.content)
}

/// The entry a newly seen card starts from: no memory state, not ignored.
pub open spec fn fresh_item(id: CardItemIdentify) -> LockItem {
    LockItem { name: id.0, content: id.1, state: None, ignored: false }
}

/// Whether some entry of the ledger carries this identity.
pub open spec fn has_id(s: Seq<LockItem>, id: CardItemIdentify) -> bool {
    exists|i: int| 0 <= i < s.len() && item_id(#[trigger] s[i]) == id
}

/// Whether some card of the set derives this identity.
pub open spec fn card_has_id(s: Seq<CardItem>, id: CardItemIdentify) -> bool {
    exists|j: int| 0 <= j < s.len() && (#[trigger] s[j]).id_spec() == id
}

/// No two entries of the ledger carry the same identity.
pub open spec fn ids_unique(s: Seq<LockItem>) -> bool {
    forall|i: int, j: int|
        0 <= i < j < s.len() ==> item_id(#[trigger] s[i]) != item_id(#[trigger] s[j])
}

/// Identity order: by the primary (name) hash, ties broken by the content hash.
pub open spec fn id_lt(a: CardItemIdentify, b: CardItemIdentify) -> bool {
    a.0 < b.0 || (a.0 == b.0 && a.1 < b.1)
}

/// The ledger is sorted by identity, primary hash component first.
pub open spec fn sorted_by_id(s: Seq<LockItem>) -> bool {
    forall|i: int, j: int|
        0 <= i < j < s.len() ==> !id_lt(item_id(#[trigger] s[j]), item_id(#[trigger] s[i]))
}

impl LockItem {
    pub fn new_from_card(card: &CardItem) -> (r: LockItem)
        ensures
            r == fresh_item(card.id_spec()),
    {
        let CardItemIdentify(hashed_name, hashed_content) = card.get_id();
        LockItem { name: hashed_name, content: hashed_content, state: None, ignored: false }
    }

    pub fn get_id(&self) -> (r: CardItemIdentify)
        ensures
            r == item_id(*self),
    {
        CardItemIdentify(self.name, self.content)
    }
}

/// What reconciliation promises of its result `r`, built from the previous
/// ledger `old_list` and the current card set `cards`:
/// - every entry of `r` answers to some current card;
/// - an entry whose identity already stood in the old ledger is the old
///   entry, carried forward verbatim (state and ignored flag untouched);
/// - an entry whose identity is new starts fresh: no state, not ignored;
/// - every current card's identity is present in `r`;
/// - `r` is unique by identity and sorted by identity, primary hash first.
pub open spec fn reconciles(old_list: Seq<LockItem>, cards: Seq<CardItem>, r: Seq<LockItem>) -> bool {
    &&& forall|e: LockItem| #[trigger] r.contains(e) ==> card_has_id(cards, item_id(e))
    &&& forall|e: LockItem|
        #[trigger] r.contains(e) && has_id(old_list, item_id(e)) ==> old_list.contains(e)
    &&& forall|e: LockItem|
        #[trigger] r.contains(e) && !has_id(old_list, item_id(e)) ==> e == fresh_item(item_id(e))
    &&& forall|j: int| 0 <= j < cards.len() ==> has_id(r, (#[trigger] cards[j]).id_spec())
    &&& ids_unique(r)
    &&& sorted_by_id(r)
}

/// Places the entry at its ordered position, keeping the ledger sorted and
/// unique by identity.
fn insert_sorted(v: &mut Vec<LockItem>, item: LockItem)
    requires
        sorted_by_id(old(v)@),
        ids_unique(old(v)@),
        !has_id(old(v)@, item_id(item)),
    ensures
        final(v)@.len() == old(v)@.len() + 1,
        final(v)@.contains(item),
        forall|e: LockItem| old(v)@.contains(e) ==> final(v)@.contains(e),
        forall|e: LockItem| #[trigger] final(v)@.contains(e) ==> old(v)@.contains(e) || e == item,
        sorted_by_id(final(v)@),
        ids_unique(final(v)@),
        forall|id: CardItemIdentify|
            #[trigger] has_id(final(v)@, id) <==> has_id(old(v)@, id) || id == item_id(item),
{
    let ghost prev = v@;
    let mut pos: usize = 0;
    while pos < v.len() && (v[pos].name < item.name
        || (v[pos].name == item.name && v[pos].content < item.content))
        invariant
            pos <= v@.len(),
            v@ == prev,
            forall|k: int| 0 <= k < pos ==> id_lt(item_id(#[trigger] v@[k]), item_id(item)),
        decreases v@.len() - pos,
    {
        pos += 1;
    }
    proof {
        // every entry from `pos` on lies strictly after `item` in identity order
        if pos < prev.len() {
            assert(item_id(prev[pos as int]) != item_id(item));
            assert(id_lt(item_id(item), item_id(prev[pos as int])));
        }
        assert forall|k: int| pos <= k < prev.len() implies id_lt(
            item_id(item),
            item_id(#[trigger] prev[k]),
        ) by {
            assert(item_id(prev[k]) != item_id(item));
            assert(!id_lt(item_id(prev[k]), item_id(prev[pos as int])) || k == pos);
        }
    }
    v.insert(pos, item);
    proof {
        prev.insert_ensures(pos as int, item);
        assert(v@[pos as int] == item);
        assert(v@.contains(item));
        assert forall|e: LockItem| prev.contains(e) implies v@.contains(e) by {
            let i = choose|i: int| 0 <= i < prev.len() && prev[i] == e;
            if i < pos {
                assert(v@[i] == e);
            } else {
                assert(v@[i + 1] == e);
            }
        }
        assert forall|e: LockItem| #[trigger] v@.contains(e) implies prev.contains(e) || e == item by {
            let i = choose|i: int| 0 <= i < v@.len() && v@[i] == e;
            if i < pos {
                assert(prev[i] == e);
            } else if i > pos {
                assert(v@[(i - 1) + 1] == prev[i - 1]);
            }
        }
        assert forall|i: int, j: int| 0 <= i < j < v@.len() implies !id_lt(
            item_id(#[trigger] v@[j]),
            item_id(#[trigger] v@[i]),
        ) by {
            if j < pos {
            } else if i > pos {
                assert(v@[i] == prev[i - 1] && v@[j] == prev[j - 1]);
            } else if i < pos && j == pos {
                assert(id_lt(item_id(v@[i]), item_id(item)));
            } else if i < pos && j > pos {
                assert(v@[i] == prev[i] && v@[j] == prev[j - 1]);
            } else if i == pos {
                assert(v@[j] == prev[j - 1] && id_lt(item_id(item), item_id(prev[j - 1])));
            }
        }
        assert forall|i: int, j: int| 0 <= i < j < v@.len() implies item_id(#[trigger] v@[i])
            != item_id(#[trigger] v@[j]) by {
            if i == pos {
                assert(id_lt(item_id(v@[i]), item_id(prev[j - 1])));
            } else if j == pos {
                assert(id_lt(item_id(prev[i]), item_id(v@[j])));
            } else {
                let i0: int = if i < pos { i } else { i - 1 };
                let j0: int = if j < pos { j } else { j - 1 };
                assert(v@[i] == prev[i0] && v@[j] == prev[j0]);
            }
        }
        assert forall|id: CardItemIdentify| #[trigger] has_id(v@, id) implies has_id(prev, id)
            || id == item_id(item) by {
            let i = choose|i: int| 0 <= i < v@.len() && item_id(v@[i]) == id;
            if i < pos {
                assert(item_id(prev[i]) == id);
            } else if i > pos {
                assert(v@[(i - 1) + 1] == prev[i - 1]);
                assert(item_id(prev[i - 1]) == id);
            }
        }
        assert forall|id: CardItemIdentify| has_id(prev, id) implies #[trigger] has_id(v@, id) by {
            let i = choose|i: int| 0 <= i < prev.len() && item_id(prev[i]) == id;
            if i < pos {
                assert(item_id(v@[i]) == id);
            } else {
                assert(item_id(v@[i + 1]) == id);
            }
        }
        assert(has_id(v@, item_id(item))) by {
            assert(item_id(v@[pos as int]) == item_id(item));
        }
    }
}

/// Builds the new ledger from the previous one and the current card set:
/// identities in both carry their entry forward verbatim, new identities get
/// a fresh entry, identities no longer backed by a card are dropped. When two
/// current cards share an identity, the first occurrence stands. The result
/// is sorted by identity for a deterministic persisted order.
pub fn update_lock_item_list(old_list: Vec<LockItem>, new_content: &Vec<CardItem>) -> (r: Vec<
    LockItem,
>)
    requires
        ids_unique(old_list@),
    ensures
        reconciles(old_list@, new_content@, r@),
{
    let mut result: Vec<LockItem> = Vec::new();
    let mut j: usize = 0;
    while j < new_content.len()
        invariant
            j <= new_content@.len(),
            ids_unique(old_list@),
            ids_unique(result@),
            sorted_by_id(result@),
            forall|e: LockItem| #[trigger] result@.contains(e) ==> card_has_id(new_content@, item_id(e)),
            forall|e: LockItem|
                #[trigger] result@.contains(e) && has_id(old_list@, item_id(e))
                    ==> old_list@.contains(e),
            forall|e: LockItem|
                #[trigger] result@.contains(e) && !has_id(old_list@, item_id(e))
                    ==> e == fresh_item(item_id(e)),
            forall|jj: int| 0 <= jj < j ==> has_id(result@, (#[trigger] new_content@[jj]).id_spec()),
        decreases new_content@.len() - j,
    {
        let card = &new_content[j];
        let id = card.get_id();
        if find_by_id(&result, id).is_none() {
            let item = match find_by_id(&old_list, id) {
                Some(k) => old_list[k].clone(),
                None => LockItem::new_from_card(card),
            };
            assert(item_id(item) == id);
            assert(has_id(old_list@, id) ==> old_list@.contains(item)) by {
                if has_id(old_list@, id) {
                    let ki = choose|ki: int|
                        0 <= ki < old_list@.len() && item_id(old_list@[ki]) == id;
                }
            }
            insert_sorted(&mut result, item);
            assert(card_has_id(new_content@, id)) by {
                assert((new_content@[j as int]).id_spec() == id);
            }
        }
        assert(has_id(result@, new_content@[j as int].id_spec()));
        j += 1;
    }
    result
}

/// Two ledgers that are sorted by identity, unique by identity, and hold
/// exactly the same entries are the same sequence, entry for entry.
pub proof fn lemma_sorted_unique_same_entries_equal(a: Seq<LockItem>, b: Seq<LockItem>)
    requires
        sorted_by_id(a),
        ids_unique(a),
        sorted_by_id(b),
        ids_unique(b),
        forall|e: LockItem| #[trigger] a.contains(e) <==> #[trigger] b.contains(e),
    ensures
        a == b,
    decreases a.len(),
{
    if a.len() == 0 {
        if b.len() > 0 {
            assert(b.contains(b[0]));
            assert(a.contains(b[0]));
            assert(false);
        }
        assert(a =~= b);
    } else {
        assert(a.contains(a[0]));
        assert(b.contains(a[0]));
        let j = choose|j: int| 0 <= j < b.len() && b[j] == a[0];
        assert(b.contains(b[0]));
        assert(a.contains(b[0]));
        let i = choose|i: int| 0 <= i < a.len() && a[i] == b[0];
        if j > 0 {
            // the head of `b` would then carry a strictly smaller identity
            // than the head of `a`, yet it also stands somewhere in `a`
            assert(item_id(b[0]) != item_id(b[j]));
            assert(!id_lt(item_id(b[j]), item_id(b[0])));
            assert(i > 0 ==> !id_lt(item_id(a[i]), item_id(a[0])));
            assert(false);
        }
        let at = a.subrange(1, a.len() as int);
        let bt = b.subrange(1, b.len() as int);
        assert forall|e: LockItem| #[trigger] at.contains(e) implies bt.contains(e) by {
            let k = choose|k: int| 0 <= k < at.len() && at[k] == e;
            assert(a[k + 1] == e);
            assert(a.contains(e));
            assert(b.contains(e));
            let l = choose|l: int| 0 <= l < b.len() && b[l] == e;
            if l == 0 {
                assert(item_id(a[0]) == item_id(a[k + 1]));
                assert(false);
            }
            assert(bt[l - 1] == e);
            assert(bt.contains(bt[l - 1]));
        }
        assert forall|e: LockItem| #[trigger] bt.contains(e) implies at.contains(e) by {
            let k = choose|k: int| 0 <= k < bt.len() && bt[k] == e;
            assert(b[k + 1] == e);
            assert(b.contains(e));
            assert(a.contains(e));
            let l = choose|l: int| 0 <= l < a.len() && a[l] == e;
            if l == 0 {
                assert(item_id(b[0]) == item_id(b[k + 1]));
                assert(false);
            }
            assert(at[l - 1] == e);
            assert(at.contains(at[l - 1]));
        }
        lemma_sorted_unique_same_entries_equal(at, bt);
        assert(a.len() == b.len());
        assert forall|k: int| 0 <= k < a.len() implies a[k] == b[k] by {
            if k > 0 {
                assert(at[k - 1] == bt[k - 1]);
            }
        }
        assert(a =~= b);
    }
}

/// Reconciliation is a function of its inputs, persisted order included: any
/// two ledgers that reconcile the same previous ledger with the same card
/// set are the same sequence, entry for entry.
pub proof fn lemma_reconcile_deterministic(
    old_list: Seq<LockItem>,
    cards: Seq<CardItem>,
    r1: Seq<LockItem>,
    r2: Seq<LockItem>,
)
    requires
        ids_unique(old_list),
        reconciles(old_list, cards, r1),
        reconciles(old_list, cards, r2),
    ensures
        r1 == r2,
{
    assert forall|e: LockItem| #[trigger] r1.contains(e) implies r2.contains(e) by {
        lemma_same_reconciled_entry(old_list, cards, r1, r2, e);
    }
    assert forall|e: LockItem| #[trigger] r2.contains(e) implies r1.contains(e) by {
        lemma_same_reconciled_entry(old_list, cards, r2, r1, e);
    }
    lemma_sorted_unique_same_entries_equal(r1, r2);
}

/// An entry of one reconciled ledger stands, identical, in any other ledger
/// reconciled from the same inputs: its identity answers to a card, so the
/// other ledger carries that identity too, resolved to the same old entry
/// or to the same fresh one.
proof fn lemma_same_reconciled_entry(
    old_list: Seq<LockItem>,
    cards: Seq<CardItem>,
    r1: Seq<LockItem>,
    r2: Seq<LockItem>,
    e: LockItem,
)
    requires
        ids_unique(old_list),
        reconciles(old_list, cards, r1),
        reconciles(old_list, cards, r2),
        r1.contains(e),
    ensures
        r2.contains(e),
{
    let jc = choose|jc: int| 0 <= jc < cards.len() && cards[jc].id_spec() == item_id(e);
    assert(has_id(r2, item_id(e)));
    let i2 = choose|i2: int| 0 <= i2 < r2.len() && item_id(r2[i2]) == item_id(e);
    let e2 = r2[i2];
    assert(r2.contains(e2));
    if has_id(old_list, item_id(e)) {
        assert(old_list.contains(e));
        assert(old_list.contains(e2));
        let a = choose|a: int| 0 <= a < old_list.len() && old_list[a] == e;
        let b = choose|b: int| 0 <= b < old_list.len() && old_list[b] == e2;
        assert(a == b);
    } else {
        assert(e == fresh_item(item_id(e)));
        assert(e2 == fresh_item(item_id(e2)));
    }
    assert(e == e2);
}

/// Reconciling a second time against the same card set is a no-op: the
/// first result already reconciles itself with those cards, so the second
/// result is the first, entry for entry and in the same order.
pub proof fn lemma_reconcile_idempotent(
    old_list: Seq<LockItem>,
    cards: Seq<CardItem>,
    r1: Seq<LockItem>,
    r2: Seq<LockItem>,
)
    requires
        reconciles(old_list, cards, r1),
        reconciles(r1, cards, r2),
    ensures
        r2 == r1,
{
    assert(reconciles(r1, cards, r1));
    lemma_reconcile_deterministic(r1, cards, r1, r2);
}

/// The index of the entry carrying this identity, if the ledger has one.
pub fn find_by_id(list: &Vec<LockItem>, id: CardItemIdentify) -> (r: Option<usize>)
    ensures
        match r {
            Some(k) => k < list@.len() && item_id(list@[k as int]) == id,
            None => !has_id(list@, id),
        },
{
    let mut k: usize = 0;
    while k < list.len()
        invariant
            k <= list@.len(),
            forall|i: int| 0 <= i < k ==> item_id(#[trigger] list@[i]) != id,
        decreases list@.len() - k,
    {
        if list[k].name == id.0 && list[k].content == id.1 {
            return Some(k);
        }
        k += 1;
    }
    None
}

} // verus!
