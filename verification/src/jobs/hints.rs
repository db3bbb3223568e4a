//! Announced addresses: which are kept for a job, and for how long.

use crate::jobs::model::{StoreError, MAX_PEER_HINTS, PEER_HINT_TTL_MS};
use crate::order::{
    bytes_before, bytes_equal, bytes_less, lemma_bytes_total, lemma_bytes_transitive,
};
use vstd::prelude::*;

verus! {

/// An announced address: four or sixteen bytes, the port, and when it was last announced.
#[derive(Debug)]
pub struct Hint {
    pub ip: Vec<u8>,
    pub port: u16,
    pub observed_at: i64,
}

/// The model of an address.
pub struct HintModel {
    pub ip: Seq<u8>,
    pub port: u16,
    pub observed_at: i64,
}

impl View for Hint {
    type V = HintModel;

    open spec fn view(&self) -> HintModel {
        HintModel { ip: self.ip@, port: self.port, observed_at: self.observed_at }
    }
}

/// The models of a list of addresses.
pub open spec fn hint_models(hints: Seq<Hint>) -> Seq<HintModel> {
    hints.map_values(|hint: Hint| hint@)
}

/// Whether two entries name the same address.
pub open spec fn same_address(a: HintModel, b: HintModel) -> bool {
    a.ip == b.ip && a.port == b.port
}

/// Whether `a` is kept rather than `b`: the later announcement first, then the smaller address.
pub open spec fn hint_before(a: HintModel, b: HintModel) -> bool {
    ||| a.observed_at > b.observed_at
    ||| a.observed_at == b.observed_at && (bytes_before(a.ip, b.ip) || (a.ip == b.ip && a.port
        < b.port))
}

/// Whether the addresses of a job are in order, each once, and not too many.
pub open spec fn hints_valid(hints: Seq<HintModel>) -> bool {
    &&& hints.len() <= MAX_PEER_HINTS
    &&& in_order(hints)
}

/// Whether every address comes before all that follow it.
pub open spec fn in_order(hints: Seq<HintModel>) -> bool {
    forall|i: int, j: int| 0 <= i < j < hints.len() ==> #[trigger] hint_before(hints[i], hints[j])
}

/// Whether an announcement can be stored: it needs a port and a time after the epoch.
pub fn check_announcement(port: u16, observed_at: i64) -> (result: Result<(), StoreError>)
    ensures
        port != 0 && observed_at >= 0 ==> result is Ok,
        port == 0 || observed_at < 0 ==> result == Err::<(), StoreError>(StoreError::Announcement),
{
    if port == 0 || observed_at < 0 {
        Err(StoreError::Announcement)
    } else {
        Ok(())
    }
}

/// Whether an announcement is taken in. Without a free place only a job that is active already may
/// still learn new addresses.
pub fn accepts_announcement(places: usize, active: bool) -> (accepted: bool)
    ensures
        accepted == (places > 0 || active),
{
    places > 0 || active
}

/// Whether an address that was announced then is still valid.
pub fn fresh(observed_at: i64, now: i64) -> (fresh: bool)
    ensures
        fresh == (observed_at >= now - PEER_HINT_TTL_MS),
{
    observed_at as i128 >= (now as i128) - (PEER_HINT_TTL_MS as i128)
}

/// The order of addresses is transitive.
proof fn lemma_hint_transitive(a: HintModel, b: HintModel, c: HintModel)
    requires
        hint_before(a, b),
        hint_before(b, c),
    ensures
        hint_before(a, c),
{
    if a.observed_at == b.observed_at && b.observed_at == c.observed_at {
        if bytes_before(a.ip, b.ip) && bytes_before(b.ip, c.ip) {
            lemma_bytes_transitive(a.ip, b.ip, c.ip);
        }
    }
}

/// Of two different addresses one comes before the other.
proof fn lemma_hint_total(a: HintModel, b: HintModel)
    requires
        !same_address(a, b),
    ensures
        hint_before(a, b) || hint_before(b, a),
{
    lemma_bytes_total(a.ip, b.ip);
}

/// Whether `a` is kept rather than `b`.
fn comes_before(a: &Hint, b: &Hint) -> (before: bool)
    ensures
        before == hint_before(a@, b@),
{
    if a.observed_at != b.observed_at {
        return a.observed_at > b.observed_at;
    }
    if bytes_less(a.ip.as_slice(), b.ip.as_slice()) {
        return true;
    }
    bytes_equal(a.ip.as_slice(), b.ip.as_slice()) && a.port < b.port
}

/// The entries without the one at `i`.
proof fn lemma_remove_ordered(hints: Seq<HintModel>, i: int)
    requires
        in_order(hints),
        0 <= i < hints.len(),
    ensures
        in_order(hints.remove(i)),
{
    let rest = hints.remove(i);
    assert forall|a: int, b: int| 0 <= a < b < rest.len() implies #[trigger] hint_before(
        rest[a],
        rest[b],
    ) by {
        let x = if a < i { a } else { a + 1 };
        let y = if b < i { b } else { b + 1 };
        assert(rest[a] == hints[x] && rest[b] == hints[y]);
        assert(hint_before(hints[x], hints[y]));
    }
}

/// Where an address stands among the entries, if it is there.
pub open spec fn address_index(hints: Seq<HintModel>, hint: HintModel) -> int
    decreases hints.len(),
{
    if hints.len() == 0 {
        -1
    } else if same_address(hints.last(), hint) {
        hints.len() - 1
    } else {
        address_index(hints.drop_last(), hint)
    }
}

/// The time under which an address is kept: the later of the two announcements.
pub open spec fn merged_time(hints: Seq<HintModel>, hint: HintModel) -> i64 {
    let at = address_index(hints, hint);
    if at >= 0 && hints[at].observed_at > hint.observed_at {
        hints[at].observed_at
    } else {
        hint.observed_at
    }
}

/// The entry of an address with the time under which it is kept.
pub open spec fn merged_hint(hints: Seq<HintModel>, hint: HintModel) -> HintModel {
    HintModel { ip: hint.ip, port: hint.port, observed_at: merged_time(hints, hint) }
}

/// The entries of all other addresses.
pub open spec fn other_hints(hints: Seq<HintModel>, hint: HintModel) -> Seq<HintModel> {
    let at = address_index(hints, hint);
    if at >= 0 {
        hints.remove(at)
    } else {
        hints
    }
}

/// The number of leading entries that come before `hint`.
pub open spec fn hint_slot(hints: Seq<HintModel>, hint: HintModel) -> int
    decreases hints.len(),
{
    if hints.len() > 0 && hint_before(hints[0], hint) {
        1 + hint_slot(hints.drop_first(), hint)
    } else {
        0
    }
}

/// All entries once an announcement is added.
pub open spec fn all_hints(hints: Seq<HintModel>, hint: HintModel) -> Seq<HintModel> {
    let merged = merged_hint(hints, hint);
    let others = other_hints(hints, hint);
    others.insert(hint_slot(others, merged), merged)
}

/// The entries that are kept once an announcement is added: the first of them.
pub open spec fn kept_hints(hints: Seq<HintModel>, hint: HintModel) -> Seq<HintModel> {
    let all = all_hints(hints, hint);
    if all.len() > MAX_PEER_HINTS {
        all.take(MAX_PEER_HINTS as int)
    } else {
        all
    }
}

/// Whether no address occurs twice.
pub open spec fn distinct(hints: Seq<HintModel>) -> bool {
    forall|i: int, j: int|
        0 <= i < j < hints.len() ==> !same_address(#[trigger] hints[i], #[trigger] hints[j])
}

/// What the index of an address tells.
proof fn lemma_address_index(hints: Seq<HintModel>, hint: HintModel)
    ensures
        -1 <= address_index(hints, hint) < hints.len(),
        address_index(hints, hint) >= 0 ==> same_address(hints[address_index(hints, hint)], hint),
        address_index(hints, hint) < 0 ==> forall|i: int|
            0 <= i < hints.len() ==> !same_address(#[trigger] hints[i], hint),
        forall|i: int|
            address_index(hints, hint) < i < hints.len() ==> !same_address(#[trigger] hints[i], hint),
    decreases hints.len(),
{
    if hints.len() > 0 && !same_address(hints.last(), hint) {
        lemma_address_index(hints.drop_last(), hint);
        assert forall|i: int| address_index(hints, hint) < i < hints.len() implies !same_address(
            #[trigger] hints[i],
            hint,
        ) by {
            if i < hints.len() - 1 {
                assert(hints.drop_last()[i] == hints[i]);
            }
        }
    }
}

/// Finds an address among the entries.
fn find_address(hints: &Vec<Hint>, hint: &Hint) -> (at: Option<usize>)
    ensures
        match at {
            Some(at) => at == address_index(hint_models(hints@), hint@),
            None => address_index(hint_models(hints@), hint@) < 0,
        },
{
    let ghost models = hint_models(hints@);
    let mut i: usize = hints.len();
    assert(models.take(models.len() as int) =~= models);
    while i > 0
        invariant
            i <= hints@.len(),
            models == hint_models(hints@),
            address_index(models, hint@) == address_index(models.take(i as int), hint@),
        decreases i,
    {
        assert(models.take(i as int).last() == hints@[i - 1]@);
        assert(models.take(i as int).drop_last() =~= models.take(i - 1));
        if hints[i - 1].port == hint.port && bytes_equal(
            hints[i - 1].ip.as_slice(),
            hint.ip.as_slice(),
        ) {
            return Some(i - 1);
        }
        i -= 1;
    }
    None
}

/// The slot of an entry is one among the others.
proof fn lemma_slot(hints: Seq<HintModel>, hint: HintModel)
    ensures
        0 <= hint_slot(hints, hint) <= hints.len(),
        forall|k: int|
            0 <= k < hint_slot(hints, hint) ==> hint_before(#[trigger] hints[k], hint),
        hint_slot(hints, hint) < hints.len() ==> !hint_before(hints[hint_slot(hints, hint)], hint),
    decreases hints.len(),
{
    if hints.len() > 0 && hint_before(hints[0], hint) {
        let rest = hints.drop_first();
        lemma_slot(rest, hint);
        assert forall|k: int| 0 <= k < hint_slot(hints, hint) implies hint_before(
            #[trigger] hints[k],
            hint,
        ) by {
            if k > 0 {
                assert(rest[k - 1] == hints[k]);
            }
        }
    }
}

/// Adds an announcement to the addresses of a job. An address that is known keeps its later time;
/// of all of them the newest are kept.
pub fn keep_newest(hints: &mut Vec<Hint>, hint: Hint)
    ensures
        hint_models(final(hints)@) == kept_hints(hint_models(old(hints)@), hint@),
{
    let ghost before = hint_models(hints@);
    let ghost given = hint@;
    let mut hint = hint;
    proof {
        lemma_address_index(before, given);
    }
    if let Some(at) = find_address(&*hints, &hint) {
        assert(before[at as int] == hints@[at as int]@);
        if hints[at].observed_at > hint.observed_at {
            hint.observed_at = hints[at].observed_at;
        }
        let _ = hints.remove(at);
        assert(hint_models(hints@) =~= before.remove(at as int));
    }
    let ghost others = hint_models(hints@);
    let ghost merged = hint@;
    assert(merged == merged_hint(before, given));
    assert(others == other_hints(before, given));
    let mut slot: usize = 0;
    assert(others.skip(0) =~= others);
    while slot < hints.len() && comes_before(&hints[slot], &hint)
        invariant
            slot <= hints@.len(),
            others == hint_models(hints@),
            merged == hint@,
            hint_slot(others, merged) == slot + hint_slot(others.skip(slot as int), merged),
        decreases hints@.len() - slot,
    {
        assert(others.skip(slot as int)[0] == hints@[slot as int]@);
        assert(others.skip(slot as int).drop_first() =~= others.skip(slot + 1));
        slot += 1;
    }
    proof {
        if slot < hints@.len() {
            assert(others.skip(slot as int)[0] == hints@[slot as int]@);
        }
        assert(slot == hint_slot(others, merged));
    }
    hints.insert(slot, hint);
    assert(hint_models(hints@) =~= all_hints(before, given));
    if hints.len() > MAX_PEER_HINTS {
        hints.truncate(MAX_PEER_HINTS);
        assert(hint_models(hints@) =~= all_hints(before, given).take(MAX_PEER_HINTS as int));
    }
}

/// The other entries keep their order and are all different from the new one.
proof fn lemma_others(hints: Seq<HintModel>, hint: HintModel)
    requires
        in_order(hints),
        distinct(hints),
    ensures
        in_order(other_hints(hints, hint)),
        distinct(other_hints(hints, hint)),
        forall|i: int|
            0 <= i < other_hints(hints, hint).len() ==> !same_address(
                #[trigger] other_hints(hints, hint)[i],
                hint,
            ),
{
    lemma_address_index(hints, hint);
    let at = address_index(hints, hint);
    let others = other_hints(hints, hint);
    if at >= 0 {
        lemma_remove_ordered(hints, at);
        assert forall|i: int, j: int| 0 <= i < j < others.len() implies !same_address(
            #[trigger] others[i],
            #[trigger] others[j],
        ) by {
            let x = if i < at { i } else { i + 1 };
            let y = if j < at { j } else { j + 1 };
            assert(others[i] == hints[x] && others[j] == hints[y]);
        }
        assert forall|i: int| 0 <= i < others.len() implies !same_address(
            #[trigger] others[i],
            hint,
        ) by {
            let x = if i < at { i } else { i + 1 };
            assert(others[i] == hints[x]);
            if x < at {
                assert(!same_address(hints[x], hints[at]));
            } else {
                assert(!same_address(hints[at], hints[x]));
            }
        }
    }
}

/// All entries are in order, each address once.
proof fn lemma_all_ordered(hints: Seq<HintModel>, hint: HintModel)
    requires
        in_order(hints),
        distinct(hints),
    ensures
        in_order(all_hints(hints, hint)),
        distinct(all_hints(hints, hint)),
{
    let merged = merged_hint(hints, hint);
    let others = other_hints(hints, hint);
    let slot = hint_slot(others, merged);
    let all = all_hints(hints, hint);
    lemma_others(hints, hint);
    lemma_slot(others, merged);
    assert forall|i: int| 0 <= i < others.len() implies !same_address(#[trigger] others[i], merged) by {
        assert(!same_address(others[i], hint));
    }
    assert forall|k: int| slot <= k < others.len() implies hint_before(merged, #[trigger] others[k]) by {
        lemma_hint_total(others[slot], merged);
        if k > slot {
            assert(hint_before(others[slot], others[k]));
            lemma_hint_transitive(merged, others[slot], others[k]);
        }
    }
    lemma_insert_ordered(others, merged, slot);
    assert forall|i: int, j: int| 0 <= i < j < all.len() implies !same_address(
        #[trigger] all[i],
        #[trigger] all[j],
    ) by {
        let x = if i < slot { i } else { i - 1 };
        let y = if j < slot { j } else { j - 1 };
        if i != slot {
            assert(all[i] == others[x]);
        }
        if j != slot {
            assert(all[j] == others[y]);
        }
    }
}

/// At most the fixed number of addresses is kept, each once, the newest first; what is dropped was
/// announced no later than anything that is kept.
pub proof fn lemma_newest_kept(hints: Seq<HintModel>, hint: HintModel)
    requires
        hints_valid(hints),
        distinct(hints),
    ensures
        hints_valid(kept_hints(hints, hint)),
        distinct(kept_hints(hints, hint)),
        forall|i: int, j: int|
            0 <= i < kept_hints(hints, hint).len() <= j < all_hints(hints, hint).len()
                ==> (#[trigger] kept_hints(hints, hint)[i]).observed_at >= (#[trigger] all_hints(
                hints,
                hint,
            )[j]).observed_at,
{
    lemma_all_ordered(hints, hint);
    let all = all_hints(hints, hint);
    let kept = kept_hints(hints, hint);
    assert(kept =~= all.take(kept.len() as int));
    assert forall|i: int, j: int| 0 <= i < j < kept.len() implies #[trigger] hint_before(
        kept[i],
        kept[j],
    ) by {
        assert(hint_before(all[i], all[j]));
    }
    assert forall|i: int, j: int| 0 <= i < kept.len() <= j < all.len() implies (
    #[trigger] kept[i]).observed_at >= (#[trigger] all[j]).observed_at by {
        assert(kept[i] == all[i]);
        assert(hint_before(all[i], all[j]));
    }
    assert forall|i: int, j: int| 0 <= i < j < kept.len() implies !same_address(
        #[trigger] kept[i],
        #[trigger] kept[j],
    ) by {
        assert(kept[i] == all[i] && kept[j] == all[j]);
    }
}

/// An entry that is put in its place keeps the order.
proof fn lemma_insert_ordered(hints: Seq<HintModel>, hint: HintModel, slot: int)
    requires
        in_order(hints),
        0 <= slot <= hints.len(),
        forall|k: int| 0 <= k < slot ==> hint_before(#[trigger] hints[k], hint),
        forall|k: int| slot <= k < hints.len() ==> hint_before(hint, #[trigger] hints[k]),
    ensures
        in_order(hints.insert(slot, hint)),
{
    let full = hints.insert(slot, hint);
    assert forall|i: int, j: int| 0 <= i < j < full.len() implies #[trigger] hint_before(
        full[i],
        full[j],
    ) by {
        if i < slot {
            assert(full[i] == hints[i]);
        } else if i > slot {
            assert(full[i] == hints[i - 1]);
        }
        if j < slot {
            assert(full[j] == hints[j]);
        } else if j > slot {
            assert(full[j] == hints[j - 1]);
        }
        if i != slot && j != slot {
            let x = if i < slot { i } else { i - 1 };
            let y = if j < slot { j } else { j - 1 };
            assert(hint_before(hints[x], hints[y]));
        }
    }
}

/// An announcement joins the hints, with the latest time at which its address was announced, and
/// leaves the others as they are. All stand with the newest first, then by address, and the first
/// eight are kept.
pub proof fn lemma_announced(hints: Seq<HintModel>, hint: HintModel)
    requires
        hints.len() <= 8,
        forall|i: int, j: int|
            0 <= i < j < hints.len() ==> {
                ||| (#[trigger] hints[i]).observed_at > (#[trigger] hints[j]).observed_at
                ||| hints[i].observed_at == hints[j].observed_at && (bytes_before(
                    hints[i].ip,
                    hints[j].ip,
                ) || (hints[i].ip == hints[j].ip && hints[i].port < hints[j].port))
            },
        forall|i: int, j: int|
            0 <= i < j < hints.len() ==> (#[trigger] hints[i]).ip != (#[trigger] hints[j]).ip
                || hints[i].port != hints[j].port,
    ensures
        ({
            let all = all_hints(hints, hint);
            let kept = kept_hints(hints, hint);
            &&& kept.len() == if all.len() > 8 { 8 } else { all.len() }
            &&& forall|i: int| 0 <= i < kept.len() ==> kept[i] == #[trigger] all[i]
            &&& forall|i: int, j: int|
                0 <= i < j < all.len() ==> {
                    ||| (#[trigger] all[i]).observed_at > (#[trigger] all[j]).observed_at
                    ||| all[i].observed_at == all[j].observed_at && (bytes_before(
                        all[i].ip,
                        all[j].ip,
                    ) || (all[i].ip == all[j].ip && all[i].port < all[j].port))
                }
            &&& forall|i: int, j: int|
                0 <= i < j < all.len() ==> (#[trigger] all[i]).ip != (#[trigger] all[j]).ip
                    || all[i].port != all[j].port
            &&& exists|i: int|
                {
                    &&& 0 <= i < all.len()
                    &&& (#[trigger] all[i]).ip == hint.ip
                    &&& all[i].port == hint.port
                    &&& all[i].observed_at >= hint.observed_at
                    &&& all[i].observed_at == hint.observed_at || hints.contains(all[i])
                }
            &&& forall|i: int|
                0 <= i < hints.len() && !((#[trigger] hints[i]).ip == hint.ip && hints[i].port
                    == hint.port) ==> all.contains(hints[i])
            &&& forall|i: int|
                0 <= i < hints.len() && (#[trigger] hints[i]).ip == hint.ip && hints[i].port
                    == hint.port && hints[i].observed_at > hint.observed_at ==> all.contains(
                    hints[i],
                )
            &&& forall|i: int|
                0 <= i < all.len() && !((#[trigger] all[i]).ip == hint.ip && all[i].port
                    == hint.port) ==> hints.contains(all[i])
        }),
{
    assert(hints_valid(hints)) by {
        assert forall|i: int, j: int| 0 <= i < j < hints.len() implies #[trigger] hint_before(
            hints[i],
            hints[j],
        ) by {}
    }
    assert(distinct(hints));
    lemma_all_ordered(hints, hint);
    let all = all_hints(hints, hint);
    let at = address_index(hints, hint);
    let merged = merged_hint(hints, hint);
    let others = other_hints(hints, hint);
    let slot = hint_slot(others, merged);
    lemma_address_index(hints, hint);
    lemma_slot(others, merged);
    assert(all[slot] == merged);
    assert forall|i: int, j: int| 0 <= i < j < all.len() implies {
        ||| (#[trigger] all[i]).observed_at > (#[trigger] all[j]).observed_at
        ||| all[i].observed_at == all[j].observed_at && (bytes_before(all[i].ip, all[j].ip) || (
        all[i].ip == all[j].ip && all[i].port < all[j].port))
    } by {
        assert(hint_before(all[i], all[j]));
    }
    assert forall|i: int, j: int| 0 <= i < j < all.len() implies (#[trigger] all[i]).ip != (
    #[trigger] all[j]).ip || all[i].port != all[j].port by {
        assert(!same_address(all[i], all[j]));
    }
    if at >= 0 && hints[at].observed_at > hint.observed_at {
        assert(merged == hints[at]);
        assert(hints.contains(all[slot]));
    }
    assert forall|i: int|
        0 <= i < hints.len() && i != at implies all.contains(#[trigger] hints[i]) by {
        let p = if at >= 0 && i > at {
            i - 1
        } else {
            i
        };
        assert(others[p] == hints[i]);
        if p < slot {
            assert(all[p] == others[p]);
        } else {
            assert(all[p + 1] == others[p]);
        }
    }
    assert forall|i: int|
        0 <= i < hints.len() && (#[trigger] hints[i]).ip == hint.ip && hints[i].port == hint.port
            implies i == at by {
        if i < at {
            assert(!same_address(hints[i], hints[at]));
        } else if at < i {
            if at >= 0 {
                assert(!same_address(hints[at], hints[i]));
            }
        }
    }
    assert forall|i: int|
        0 <= i < hints.len() && (#[trigger] hints[i]).ip == hint.ip && hints[i].port == hint.port
            && hints[i].observed_at > hint.observed_at implies all.contains(hints[i]) by {
        assert(all[slot] == hints[i]);
    }
    assert forall|i: int|
        0 <= i < all.len() && !((#[trigger] all[i]).ip == hint.ip && all[i].port == hint.port)
            implies hints.contains(all[i]) by {
        let p = if i < slot {
            i
        } else {
            i - 1
        };
        assert(i != slot);
        assert(all[i] == others[p]);
        let q = if at >= 0 && p >= at {
            p + 1
        } else {
            p
        };
        assert(others[p] == hints[q]);
    }
}

/// Hints are modelled one by one, with each of their fields.
pub proof fn lemma_hint_models(hints: Seq<Hint>)
    ensures
        hint_models(hints).len() == hints.len(),
        forall|i: int|
            0 <= i < hints.len() ==> {
                &&& hint_models(hints)[i].ip == (#[trigger] hints[i]).ip@
                &&& hint_models(hints)[i].port == hints[i].port
                &&& hint_models(hints)[i].observed_at == hints[i].observed_at
            },
{
}

} // verus!
