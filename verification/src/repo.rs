//! The event store: the durable, idempotent record of observed burns, their
//! attestations, and the polling cursor.
//!
//! The store is the sole deduplication authority: admission is keyed by the
//! source transaction identifier, an event holds at most one attestation,
//! and the cursor is one value per stream key. A persistence engine outside
//! the core mirrors these tables; the logic here is what it must preserve.

use vstd::prelude::*;

use crate::errors::RelayError;
use crate::ton_watcher::{TonBurn, TonBurnView};

verus! {

/// Delivery lifecycle of a relay record. `Pending` precedes signing;
/// `Signed` awaits submission; `Submitted` is terminal; `SubmitFailed` is
/// retryable.
#[derive(Clone, Copy, Debug, PartialEq, Eq, Structural)]
pub enum RelayStatus {
    Pending,
    Signed,
    Submitted,
    SubmitFailed,
}

/// What admitting an event yielded.
#[derive(Clone, Copy, Debug, PartialEq, Eq, Structural)]
pub enum InsertOutcome {
    Inserted,
    AlreadyPresent,
}

/// A stored burn observation, as the read path lists it.
pub struct BurnRow {
    pub id: i64,
    pub tx_hash_b64: String,
    pub lt: i64,
    pub utime: i64,
    pub jetton_master_raw: String,
    pub owner_raw: String,
    pub jetton_wallet_raw: String,
    pub amount_raw: String,
    pub created_at: i64,
}

#[verifier::ext_equal]
pub ghost struct BurnRowView {
    pub id: i64,
    pub tx_hash_b64: Seq<char>,
    pub lt: i64,
    pub utime: i64,
    pub jetton_master_raw: Seq<char>,
    pub owner_raw: Seq<char>,
    pub jetton_wallet_raw: Seq<char>,
    pub amount_raw: Seq<char>,
    pub created_at: i64,
}

impl View for BurnRow {
    type V = BurnRowView;

    open spec fn view(&self) -> BurnRowView {
        BurnRowView {
            id: self.id,
            tx_hash_b64: self.tx_hash_b64@,
            lt: self.lt,
            utime: self.utime,
            jetton_master_raw: self.jetton_master_raw@,
            owner_raw: self.owner_raw@,
            jetton_wallet_raw: self.jetton_wallet_raw@,
            amount_raw: self.amount_raw@,
            created_at: self.created_at,
        }
    }
}

impl Clone for BurnRow {
    fn clone(&self) -> (r: Self)
        ensures
            r@ == self@,
    {
        BurnRow {
            id: self.id,
            tx_hash_b64: self.tx_hash_b64.clone(),
            lt: self.lt,
            utime: self.utime,
            jetton_master_raw: self.jetton_master_raw.clone(),
            owner_raw: self.owner_raw.clone(),
            jetton_wallet_raw: self.jetton_wallet_raw.clone(),
            amount_raw: self.amount_raw.clone(),
            created_at: self.created_at,
        }
    }
}

/// A stored attestation record, as the read path lists it.
pub struct AttRow {
    pub id: i64,
    pub kind: String,
    pub payload_hash_hex: String,
    pub src_tx_hash_b64: Option<String>,
    pub created_at: i64,
}

#[verifier::ext_equal]
pub ghost struct AttRowView {
    pub id: i64,
    pub kind: Seq<char>,
    pub payload_hash_hex: Seq<char>,
    pub src_tx_hash_b64: Option<Seq<char>>,
    pub created_at: i64,
}

impl View for AttRow {
    type V = AttRowView;

    open spec fn view(&self) -> AttRowView {
        AttRowView {
            id: self.id,
            kind: self.kind@,
            payload_hash_hex: self.payload_hash_hex@,
            src_tx_hash_b64: match self.src_tx_hash_b64 {
                Some(ref s) => Some(s@),
                None => None,
            },
            created_at: self.created_at,
        }
    }
}

impl Clone for AttRow {
    fn clone(&self) -> (r: Self)
        ensures
            r@ == self@,
    {
        AttRow {
            id: self.id,
            kind: self.kind.clone(),
            payload_hash_hex: self.payload_hash_hex.clone(),
            src_tx_hash_b64: match self.src_tx_hash_b64 {
                Some(ref s) => Some(s.clone()),
                None => None,
            },
            created_at: self.created_at,
        }
    }
}

/// A stored burn together with its opaque payload bytes.
struct BurnEntry {
    row: BurnRow,
    custom_payload: Option<Vec<u8>>,
}

#[verifier::ext_equal]
pub ghost struct BurnRecView {
    pub row: BurnRowView,
    pub custom_payload: Option<Seq<u8>>,
}

impl View for BurnEntry {
    type V = BurnRecView;

    closed spec fn view(&self) -> BurnRecView {
        BurnRecView {
            row: self.row@,
            custom_payload: match self.custom_payload {
                Some(ref v) => Some(v@),
                None => None,
            },
        }
    }
}

/// A stored attestation together with its canonical bytes and status.
struct AttEntry {
    row: AttRow,
    payload_borsh: Vec<u8>,
    status: RelayStatus,
}

#[verifier::ext_equal]
pub ghost struct AttRecView {
    pub row: AttRowView,
    pub payload: Seq<u8>,
    pub status: RelayStatus,
}

impl View for AttEntry {
    type V = AttRecView;

    closed spec fn view(&self) -> AttRecView {
        AttRecView { row: self.row@, payload: self.payload_borsh@, status: self.status }
    }
}

struct CursorEntry {
    k: String,
    v: String,
}

impl View for CursorEntry {
    type V = (Seq<char>, Seq<char>);

    closed spec fn view(&self) -> (Seq<char>, Seq<char>) {
        (self.k@, self.v@)
    }
}

/// The mathematical state of the store: the three tables as sequences, in
/// insertion order.
#[verifier::ext_equal]
pub ghost struct StoreView {
    pub burns: Seq<BurnRecView>,
    pub atts: Seq<AttRecView>,
    pub cursors: Seq<(Seq<char>, Seq<char>)>,
}

// ---------------------------------------------------------------------------
// Spec-level store operations
// ---------------------------------------------------------------------------

/// Is the burn with this transaction key present?
pub open spec fn has_burn(s: StoreView, key: Seq<char>) -> bool {
    exists|i: int| 0 <= i < s.burns.len() && #[trigger] s.burns[i].row.tx_hash_b64 == key
}

/// How many stored burns carry this transaction key.
pub open spec fn burn_count(burns: Seq<BurnRecView>, key: Seq<char>) -> int
    decreases burns.len(),
{
    if burns.len() == 0 {
        0
    } else {
        burn_count(burns.drop_last(), key) + if burns.last().row.tx_hash_b64 == key {
            1int
        } else {
            0int
        }
    }
}

/// Is an attestation for this event key present?
pub open spec fn has_att(s: StoreView, key: Seq<char>) -> bool {
    exists|i: int|
        0 <= i < s.atts.len() && #[trigger] s.atts[i].row.src_tx_hash_b64 == Some(key)
}

/// The index of the attestation for this event key, or -1.
pub open spec fn att_index(atts: Seq<AttRecView>, key: Seq<char>) -> int
    decreases atts.len(),
{
    if atts.len() == 0 {
        -1
    } else if atts[0].row.src_tx_hash_b64 == Some(key) {
        0
    } else {
        let r = att_index(atts.drop_first(), key);
        if r < 0 {
            -1
        } else {
            r + 1
        }
    }
}

/// The stored value under a cursor key, if any.
pub open spec fn cursor_lookup(cs: Seq<(Seq<char>, Seq<char>)>, k: Seq<char>) -> Option<Seq<char>>
    decreases cs.len(),
{
    if cs.len() == 0 {
        None
    } else if cs[0].0 == k {
        Some(cs[0].1)
    } else {
        cursor_lookup(cs.drop_first(), k)
    }
}

/// The index of a cursor key, or -1.
pub open spec fn cursor_index(cs: Seq<(Seq<char>, Seq<char>)>, k: Seq<char>) -> int
    decreases cs.len(),
{
    if cs.len() == 0 {
        -1
    } else if cs[0].0 == k {
        0
    } else {
        let r = cursor_index(cs.drop_first(), k);
        if r < 0 {
            -1
        } else {
            r + 1
        }
    }
}

/// The store's invariant: transaction keys are unique among burns, event
/// keys are unique among attestations, cursor keys are unique, and row ids
/// are the 1-based insertion positions.
pub open spec fn store_wf(s: StoreView) -> bool {
    &&& (forall|i: int, j: int|
        0 <= i < j < s.burns.len() ==> (#[trigger] s.burns[i].row.tx_hash_b64)
            != (#[trigger] s.burns[j].row.tx_hash_b64))
    &&& (forall|i: int, j: int|
        0 <= i < j < s.atts.len() && (#[trigger] s.atts[i].row.src_tx_hash_b64) is Some ==> (
        s.atts[i].row.src_tx_hash_b64) != (#[trigger] s.atts[j].row.src_tx_hash_b64))
    &&& (forall|i: int, j: int|
        0 <= i < j < s.cursors.len() ==> (#[trigger] s.cursors[i].0) != (#[trigger] s.cursors[j].0))
    &&& (forall|i: int| 0 <= i < s.burns.len() ==> (#[trigger] s.burns[i].row.id) == i + 1)
    &&& (forall|i: int| 0 <= i < s.atts.len() ==> (#[trigger] s.atts[i].row.id) == i + 1)
}

/// The stored record an admitted burn becomes (the store itself stamps no
/// wall-clock time; `created_at` is 0 in the model).
pub open spec fn burn_rec_of(b: TonBurnView, id: i64) -> BurnRecView {
    BurnRecView {
        row: BurnRowView {
            id,
            tx_hash_b64: b.tx_hash_b64,
            lt: b.lt as i64,
            utime: b.utime as i64,
            jetton_master_raw: b.jetton_master_raw,
            owner_raw: b.owner_raw,
            jetton_wallet_raw: b.jetton_wallet_raw,
            amount_raw: b.amount_raw,
            created_at: 0,
        },
        custom_payload: b.custom_payload,
    }
}

/// Admitting a burn: a no-op when its key is present, an append when new.
pub open spec fn store_insert_burn(s: StoreView, b: TonBurnView) -> StoreView {
    if has_burn(s, b.tx_hash_b64) {
        s
    } else {
        StoreView {
            burns: s.burns.push(burn_rec_of(b, (s.burns.len() + 1) as i64)),
            ..s
        }
    }
}

/// The record a saved attestation becomes.
pub open spec fn att_rec_of(
    kind: Seq<char>,
    payload: Seq<u8>,
    hash_hex: Seq<char>,
    src: Option<Seq<char>>,
    status: RelayStatus,
    id: i64,
) -> AttRecView {
    AttRecView {
        row: AttRowView {
            id,
            kind,
            payload_hash_hex: hash_hex,
            src_tx_hash_b64: src,
            created_at: 0,
        },
        payload,
        status,
    }
}

/// Saving an attestation: at most one per event key; a second one for the
/// same key is a conflict and changes nothing.
pub open spec fn store_save_att(
    s: StoreView,
    kind: Seq<char>,
    payload: Seq<u8>,
    hash_hex: Seq<char>,
    src: Option<Seq<char>>,
    status: RelayStatus,
) -> Result<StoreView, RelayError> {
    if src is Some && has_att(s, src->Some_0) {
        Err(RelayError::Conflict)
    } else {
        Ok(
            StoreView {
                atts: s.atts.push(
                    att_rec_of(kind, payload, hash_hex, src, status, (s.atts.len() + 1) as i64),
                ),
                ..s
            },
        )
    }
}

/// Changing a record's delivery status: the record must exist, and
/// `Submitted` is terminal.
pub open spec fn store_update_status(s: StoreView, key: Seq<char>, st: RelayStatus) -> Result<
    StoreView,
    RelayError,
> {
    let i = att_index(s.atts, key);
    if i < 0 {
        Err(RelayError::Invalid)
    } else if s.atts[i].status == RelayStatus::Submitted {
        Err(RelayError::Conflict)
    } else {
        Ok(
            StoreView {
                atts: s.atts.update(i, AttRecView { status: st, ..s.atts[i] }),
                ..s
            },
        )
    }
}

/// Writing a cursor: an upsert on its key.
pub open spec fn store_set_cursor(s: StoreView, k: Seq<char>, v: Seq<char>) -> StoreView {
    let i = cursor_index(s.cursors, k);
    if i < 0 {
        StoreView { cursors: s.cursors.push((k, v)), ..s }
    } else {
        StoreView { cursors: s.cursors.update(i, (k, v)), ..s }
    }
}

// ---------------------------------------------------------------------------
// The exec store
// ---------------------------------------------------------------------------

/// The in-memory event store.
pub struct EventStore {
    burns: Vec<BurnEntry>,
    atts: Vec<AttEntry>,
    cursors: Vec<CursorEntry>,
}

impl View for EventStore {
    type V = StoreView;

    closed spec fn view(&self) -> StoreView {
        StoreView {
            burns: self.burns@.map_values(|e: BurnEntry| e@),
            atts: self.atts@.map_values(|e: AttEntry| e@),
            cursors: self.cursors@.map_values(|e: CursorEntry| e@),
        }
    }
}

impl EventStore {
    /// An empty store.
    pub fn new() -> (r: EventStore)
        ensures
            r@ == (StoreView {
                burns: Seq::<BurnRecView>::empty(),
                atts: Seq::<AttRecView>::empty(),
                cursors: Seq::<(Seq<char>, Seq<char>)>::empty(),
            }),
            store_wf(r@),
    {
        let r = EventStore { burns: Vec::new(), atts: Vec::new(), cursors: Vec::new() };
        proof {
            assert(r@.burns =~= Seq::<BurnRecView>::empty());
            assert(r@.atts =~= Seq::<AttRecView>::empty());
            assert(r@.cursors =~= Seq::<(Seq<char>, Seq<char>)>::empty());
            assert(r@ =~= (StoreView {
                burns: Seq::<BurnRecView>::empty(),
                atts: Seq::<AttRecView>::empty(),
                cursors: Seq::<(Seq<char>, Seq<char>)>::empty(),
            }));
        }
        r
    }

    /// Admits a burn if its transaction key is new; re-observing a stored
    /// key is a no-op, never a second record. This is the idempotence
    /// guarantee of the ingestion path.
    pub fn insert_event_if_new(&mut self, e: &TonBurn) -> (r: InsertOutcome)
        requires
            store_wf(old(self)@),
            old(self)@.burns.len() < 0x7fff_ffff_ffff_ffff,
        ensures
            store_wf(final(self)@),
            final(self)@ == store_insert_burn(old(self)@, e@),
            r == (if has_burn(old(self)@, e@.tx_hash_b64) {
                InsertOutcome::AlreadyPresent
            } else {
                InsertOutcome::Inserted
            }),
            has_burn(final(self)@, e@.tx_hash_b64),
    {
        let n = self.burns.len();
        let mut i: usize = 0;
        while i < n
            invariant
                i <= n,
                n == self.burns@.len(),
                self@ == old(self)@,
                store_wf(self@),
                forall|k: int|
                    0 <= k < i ==> (#[trigger] self.burns@[k]@.row.tx_hash_b64)
                        != e@.tx_hash_b64,
            decreases n - i,
        {
            if self.burns[i].row.tx_hash_b64 == e.tx_hash_b64 {
                proof {
                    assert(self@.burns[i as int].row.tx_hash_b64 == e@.tx_hash_b64);
                    assert(has_burn(self@, e@.tx_hash_b64));
                }
                return InsertOutcome::AlreadyPresent;
            }
            i = i + 1;
        }
        proof {
            assert forall|k: int| 0 <= k < self@.burns.len() implies (#[trigger] self@.burns[k].row.tx_hash_b64)
                != e@.tx_hash_b64 by {
                assert(self@.burns[k] == self.burns@[k]@);
            }
            assert(!has_burn(self@, e@.tx_hash_b64));
        }
        let id: i64 = (n as i64) + 1;
        let entry = BurnEntry {
            row: BurnRow {
                id,
                tx_hash_b64: self_clone_string(&e.tx_hash_b64),
                lt: e.lt as i64,
                utime: e.utime as i64,
                jetton_master_raw: self_clone_string(&e.jetton_master_raw),
                owner_raw: self_clone_string(&e.owner_raw),
                jetton_wallet_raw: self_clone_string(&e.jetton_wallet_raw),
                amount_raw: self_clone_string(&e.amount_raw),
                created_at: 0,
            },
            custom_payload: match &e.custom_payload {
                Some(v) => Some(clone_vec_u8(v)),
                None => None,
            },
        };
        proof {
            assert(entry@ =~= burn_rec_of(e@, id));
        }
        self.burns.push(entry);
        proof {
            assert(self@.burns =~= old(self)@.burns.push(burn_rec_of(e@, id)));
            assert(self@.atts =~= old(self)@.atts);
            assert(self@.cursors =~= old(self)@.cursors);
            assert(self@ =~= store_insert_burn(old(self)@, e@));
            assert(self@.burns[old(self)@.burns.len() as int].row.tx_hash_b64 == e@.tx_hash_b64);
            assert(has_burn(self@, e@.tx_hash_b64));
            let nb = self@.burns;
            let ob = old(self)@.burns;
            assert forall|a: int, c: int| 0 <= a < c < nb.len() implies (
            #[trigger] nb[a].row.tx_hash_b64) != (#[trigger] nb[c].row.tx_hash_b64) by {
                if c < ob.len() {
                    assert(nb[a] == ob[a]);
                    assert(nb[c] == ob[c]);
                } else {
                    assert(nb[a] == ob[a]);
                    assert(ob[a].row.tx_hash_b64 != e@.tx_hash_b64);
                }
            }
            assert forall|a: int| 0 <= a < nb.len() implies (#[trigger] nb[a].row.id) == a + 1 by {
                if a < ob.len() {
                    assert(nb[a] == ob[a]);
                }
            }
            assert(store_wf(self@));
        }
        InsertOutcome::Inserted
    }

    /// The flat-argument admission used by the ingestion path: 1 when the
    /// row was inserted, 0 when its key was already present.
    pub fn insert_burn(
        &mut self,
        tx_hash_b64: &str,
        lt: i64,
        utime: i64,
        jetton_master_raw: &str,
        owner_raw: &str,
        jetton_wallet_raw: &str,
        amount_raw: &str,
        custom_payload: Option<&[u8]>,
    ) -> (r: u64)
        requires
            store_wf(old(self)@),
            old(self)@.burns.len() < 0x7fff_ffff_ffff_ffff,
            lt >= 0,
            utime >= 0,
        ensures
            store_wf(final(self)@),
            final(self)@ == store_insert_burn(old(self)@, insert_burn_args_view(
                tx_hash_b64@,
                lt,
                utime,
                jetton_master_raw@,
                owner_raw@,
                jetton_wallet_raw@,
                amount_raw@,
                match custom_payload {
                    Some(p) => Some(p@),
                    None => None,
                },
            )),
            r == (if has_burn(old(self)@, tx_hash_b64@) {
                0u64
            } else {
                1u64
            }),
    {
        let e = TonBurn {
            tx_hash_b64: str_to_string(tx_hash_b64),
            lt: lt as u64,
            utime: utime as u64,
            jetton_master_raw: str_to_string(jetton_master_raw),
            owner_raw: str_to_string(owner_raw),
            jetton_wallet_raw: str_to_string(jetton_wallet_raw),
            amount_raw: str_to_string(amount_raw),
            custom_payload: match custom_payload {
                Some(p) => Some(slice_to_vec_u8(p)),
                None => None,
            },
        };
        proof {
            assert(e@ =~= insert_burn_args_view(
                tx_hash_b64@,
                lt,
                utime,
                jetton_master_raw@,
                owner_raw@,
                jetton_wallet_raw@,
                amount_raw@,
                match custom_payload {
                    Some(p) => Some(p@),
                    None => None,
                },
            ));
        }
        match self.insert_event_if_new(&e) {
            InsertOutcome::Inserted => 1,
            InsertOutcome::AlreadyPresent => 0,
        }
    }

    /// Associates one attestation with its source event. At most one per
    /// event: a second save for the same key is a `Conflict` and changes
    /// nothing.
    pub fn save_attestation(
        &mut self,
        src_tx_hash_b64: Option<&str>,
        kind: &str,
        payload_borsh: &[u8],
        payload_hash_hex: &str,
        status: RelayStatus,
    ) -> (r: Result<i64, RelayError>)
        requires
            store_wf(old(self)@),
            old(self)@.atts.len() < 0x7fff_ffff_ffff_ffff,
        ensures
            store_wf(final(self)@),
            match store_save_att(
                old(self)@,
                kind@,
                payload_borsh@,
                payload_hash_hex@,
                opt_str_view(src_tx_hash_b64),
                status,
            ) {
                Ok(s2) => r == Ok::<i64, RelayError>((old(self)@.atts.len() + 1) as i64)
                    && final(self)@ == s2,
                Err(e) => r == Err::<i64, RelayError>(e) && final(self)@ == old(self)@,
            },
    {
        if let Some(key) = src_tx_hash_b64 {
            let n = self.atts.len();
            let key_string = str_to_string(key);
            let mut i: usize = 0;
            while i < n
                invariant
                    i <= n,
                    n == self.atts@.len(),
                    key_string@ == key@,
                    opt_str_view(src_tx_hash_b64) == Some(key@),
                    self@ == old(self)@,
                    store_wf(self@),
                    forall|k: int|
                        0 <= k < i ==> (#[trigger] self.atts@[k]@.row.src_tx_hash_b64)
                            != Some(key@),
                decreases n - i,
            {
                let hit = match &self.atts[i].row.src_tx_hash_b64 {
                    Some(s) => *s == key_string,
                    None => false,
                };
                if hit {
                    proof {
                        assert(self@.atts[i as int] == self.atts@[i as int]@);
                        assert(self@.atts[i as int].row.src_tx_hash_b64 == Some(key@));
                        assert(has_att(self@, key@));
                        assert(opt_str_view(src_tx_hash_b64) == Some(key@));
                        assert(store_save_att(
                            old(self)@,
                            kind@,
                            payload_borsh@,
                            payload_hash_hex@,
                            opt_str_view(src_tx_hash_b64),
                            status,
                        ) == Err::<StoreView, RelayError>(RelayError::Conflict));
                    }
                    return Err(RelayError::Conflict);
                }
                proof {
                    assert(self.atts@[i as int]@.row.src_tx_hash_b64 != Some(key@));
                }
                i = i + 1;
            }
            proof {
                assert forall|k: int| 0 <= k < self@.atts.len() implies (#[trigger] self@.atts[k].row.src_tx_hash_b64)
                    != Some(key@) by {
                    assert(self@.atts[k] == self.atts@[k]@);
                }
                assert(!has_att(self@, key@));
            }
        }
        let n = self.atts.len();
        let id: i64 = (n as i64) + 1;
        let entry = AttEntry {
            row: AttRow {
                id,
                kind: str_to_string(kind),
                payload_hash_hex: str_to_string(payload_hash_hex),
                src_tx_hash_b64: match src_tx_hash_b64 {
                    Some(s) => Some(str_to_string(s)),
                    None => None,
                },
                created_at: 0,
            },
            payload_borsh: slice_to_vec_u8(payload_borsh),
            status,
        };
        proof {
            assert(entry@ =~= att_rec_of(
                kind@,
                payload_borsh@,
                payload_hash_hex@,
                opt_str_view(src_tx_hash_b64),
                status,
                id,
            ));
        }
        self.atts.push(entry);
        proof {
            assert(self@.atts =~= old(self)@.atts.push(entry@));
            assert(self@.burns =~= old(self)@.burns);
            assert(self@.cursors =~= old(self)@.cursors);
            let spec_r = store_save_att(
                old(self)@,
                kind@,
                payload_borsh@,
                payload_hash_hex@,
                opt_str_view(src_tx_hash_b64),
                status,
            );
            assert(spec_r is Ok);
            assert(self@ =~= spec_r->Ok_0);
            let na = self@.atts;
            let oa = old(self)@.atts;
            assert forall|a: int, c: int|
                0 <= a < c < na.len() && (#[trigger] na[a].row.src_tx_hash_b64) is Some implies (
            na[a].row.src_tx_hash_b64) != (#[trigger] na[c].row.src_tx_hash_b64) by {
                if c < oa.len() {
                    assert(na[a] == oa[a]);
                    assert(na[c] == oa[c]);
                } else {
                    assert(na[a] == oa[a]);
                    if na[a].row.src_tx_hash_b64 == entry@.row.src_tx_hash_b64 {
                        assert(match src_tx_hash_b64 {
                            Some(k) => has_att(old(self)@, k@),
                            None => false,
                        });
                        assert(false);
                    }
                }
            }
            assert forall|a: int| 0 <= a < na.len() implies (#[trigger] na[a].row.id) == a + 1 by {
                if a < oa.len() {
                    assert(na[a] == oa[a]);
                }
            }
            assert(store_wf(self@));
        }
        Ok(id)
    }

    /// The flat-argument save used by the ingestion path: the attestation is
    /// stored as already `Signed`, and its fresh row id is returned.
    pub fn insert_attestation(
        &mut self,
        kind: &str,
        payload_borsh: &[u8],
        payload_hash_hex: &str,
        src_tx_hash_b64: Option<&str>,
    ) -> (r: Result<i64, RelayError>)
        requires
            store_wf(old(self)@),
            old(self)@.atts.len() < 0x7fff_ffff_ffff_ffff,
        ensures
            store_wf(final(self)@),
            match store_save_att(
                old(self)@,
                kind@,
                payload_borsh@,
                payload_hash_hex@,
                opt_str_view(src_tx_hash_b64),
                RelayStatus::Signed,
            ) {
                Ok(s2) => r == Ok::<i64, RelayError>((old(self)@.atts.len() + 1) as i64)
                    && final(self)@ == s2,
                Err(e) => r == Err::<i64, RelayError>(e) && final(self)@ == old(self)@,
            },
    {
        self.save_attestation(src_tx_hash_b64, kind, payload_borsh, payload_hash_hex,
            RelayStatus::Signed)
    }

    /// Changes the delivery status of the record for `src_tx`. The record
    /// must exist, and a `Submitted` record accepts no further change.
    pub fn update_status(&mut self, src_tx: &str, new_status: RelayStatus) -> (r: Result<
        (),
        RelayError,
    >)
        requires
            store_wf(old(self)@),
        ensures
            store_wf(final(self)@),
            match store_update_status(old(self)@, src_tx@, new_status) {
                Ok(s2) => r == Ok::<(), RelayError>(()) && final(self)@ == s2,
                Err(e) => r == Err::<(), RelayError>(e) && final(self)@ == old(self)@,
            },
    {
        let n = self.atts.len();
        let key_string = str_to_string(src_tx);
        let mut i: usize = 0;
        while i < n
            invariant
                i <= n,
                n == self.atts@.len(),
                key_string@ == src_tx@,
                store_wf(self@),
                self@ == old(self)@,
                forall|k: int|
                    0 <= k < i ==> (#[trigger] self.atts@[k]@.row.src_tx_hash_b64) != Some(src_tx@),
            decreases n - i,
        {
            let hit = match &self.atts[i].row.src_tx_hash_b64 {
                Some(s) => *s == key_string,
                None => false,
            };
            if hit {
                proof {
                    lemma_att_index_first(self@.atts, src_tx@, i as int);
                    assert(att_index(self@.atts, src_tx@) == i as int);
                }
                if self.atts[i].status == RelayStatus::Submitted {
                    return Err(RelayError::Conflict);
                }
                let old_entry = &self.atts[i];
                let new_entry = AttEntry {
                    row: old_entry.row.clone(),
                    payload_borsh: clone_vec_u8(&old_entry.payload_borsh),
                    status: new_status,
                };
                proof {
                    assert(new_entry@ =~= (AttRecView {
                        status: new_status,
                        ..self@.atts[i as int]
                    }));
                }
                self.atts.set(i, new_entry);
                proof {
                    assert(self@.atts =~= old(self)@.atts.update(
                        i as int,
                        AttRecView { status: new_status, ..old(self)@.atts[i as int] },
                    ));
                    assert(self@.burns =~= old(self)@.burns);
                    assert(self@.cursors =~= old(self)@.cursors);
                    let spec_r = store_update_status(old(self)@, src_tx@, new_status);
                    assert(spec_r is Ok);
                    assert(self@ =~= spec_r->Ok_0);
                    let na = self@.atts;
                    let oa = old(self)@.atts;
                    assert forall|a: int| 0 <= a < na.len() implies na[a].row == oa[a].row by {}
                    assert(store_wf(self@));
                }
                return Ok(());
            }
            proof {
                assert(self.atts@[i as int]@.row.src_tx_hash_b64 != Some(src_tx@));
            }
            i = i + 1;
        }
        proof {
            assert forall|k: int| 0 <= k < self@.atts.len() implies (#[trigger] self@.atts[k].row.src_tx_hash_b64)
                != Some(src_tx@) by {
                assert(self@.atts[k] == self.atts@[k]@);
            }
            lemma_att_index_absent(self@.atts, src_tx@);
        }
        Err(RelayError::Invalid)
    }

    /// Writes the resumption cursor for a stream key, replacing any previous
    /// value.
    pub fn set_cursor(&mut self, k: &str, v: &str)
        requires
            store_wf(old(self)@),
        ensures
            store_wf(final(self)@),
            final(self)@ == store_set_cursor(old(self)@, k@, v@),
            cursor_lookup(final(self)@.cursors, k@) == Some(v@),
    {
        let n = self.cursors.len();
        let key_string = str_to_string(k);
        let mut i: usize = 0;
        while i < n
            invariant
                i <= n,
                n == self.cursors@.len(),
                key_string@ == k@,
                self@ == old(self)@,
                store_wf(self@),
                forall|t: int| 0 <= t < i ==> (#[trigger] self.cursors@[t]@.0) != k@,
            decreases n - i,
        {
            if self.cursors[i].k == key_string {
                proof {
                    lemma_cursor_index_first(self@.cursors, k@, i as int);
                }
                let entry = CursorEntry { k: key_string, v: str_to_string(v) };
                self.cursors.set(i, entry);
                proof {
                    assert(self@.cursors =~= old(self)@.cursors.update(i as int, (k@, v@)));
                    assert(self@.burns =~= old(self)@.burns);
                    assert(self@.atts =~= old(self)@.atts);
                    assert(self@ =~= store_set_cursor(old(self)@, k@, v@));
                    let nc = self@.cursors;
                    let oc = old(self)@.cursors;
                    assert(oc[i as int].0 == k@);
                    assert forall|a: int, b: int| 0 <= a < b < nc.len() implies (
                    #[trigger] nc[a].0) != (#[trigger] nc[b].0) by {
                        assert(nc[a].0 == oc[a].0);
                        assert(nc[b].0 == oc[b].0);
                    }
                    assert(store_wf(self@));
                    lemma_cursor_lookup_at(self@.cursors, k@, i as int);
                }
                return ;
            }
            proof {
                assert(self.cursors@[i as int]@.0 != k@);
            }
            i = i + 1;
        }
        proof {
            assert forall|t: int| 0 <= t < self@.cursors.len() implies (#[trigger] self@.cursors[t].0)
                != k@ by {
                assert(self@.cursors[t] == self.cursors@[t]@);
            }
            lemma_cursor_index_absent(self@.cursors, k@);
        }
        let entry = CursorEntry { k: key_string, v: str_to_string(v) };
        self.cursors.push(entry);
        proof {
            assert(self@.cursors =~= old(self)@.cursors.push((k@, v@)));
            assert(self@.burns =~= old(self)@.burns);
            assert(self@.atts =~= old(self)@.atts);
            assert(self@ =~= store_set_cursor(old(self)@, k@, v@));
            let nc = self@.cursors;
            let oc = old(self)@.cursors;
            assert forall|a: int, b: int| 0 <= a < b < nc.len() implies (#[trigger] nc[a].0) != (
            #[trigger] nc[b].0) by {
                if b < oc.len() {
                    assert(nc[a].0 == oc[a].0);
                    assert(nc[b].0 == oc[b].0);
                } else {
                    assert(nc[a].0 == oc[a].0);
                    assert(oc[a].0 != k@);
                }
            }
            assert(store_wf(self@));
            lemma_cursor_lookup_at(self@.cursors, k@, old(self)@.cursors.len() as int);
        }
    }

    /// Reads the resumption cursor for a stream key.
    pub fn get_cursor(&self, k: &str) -> (r: Option<String>)
        ensures
            match r {
                Some(v) => cursor_lookup(self@.cursors, k@) == Some(v@),
                None => cursor_lookup(self@.cursors, k@) is None,
            },
    {
        let n = self.cursors.len();
        let key_string = str_to_string(k);
        let mut i: usize = 0;
        while i < n
            invariant
                i <= n,
                n == self.cursors@.len(),
                key_string@ == k@,
                forall|t: int| 0 <= t < i ==> (#[trigger] self.cursors@[t]@.0) != k@,
            decreases n - i,
        {
            if self.cursors[i].k == key_string {
                proof {
                    lemma_cursor_lookup_first(self@.cursors, k@, i as int);
                }
                return Some(self_clone_string(&self.cursors[i].v));
            }
            proof {
                assert(self.cursors@[i as int]@.0 != k@);
            }
            i = i + 1;
        }
        proof {
            assert forall|t: int| 0 <= t < self@.cursors.len() implies (#[trigger] self@.cursors[t].0)
                != k@ by {
                assert(self@.cursors[t] == self.cursors@[t]@);
            }
            lemma_cursor_lookup_absent(self@.cursors, k@);
        }
        None
    }

    /// Lists stored burns, most recent first. A non-negative `limit` bounds
    /// the count; a negative one lists everything, as the original query
    /// layer's `LIMIT` did.
    pub fn list_burns(&self, limit: i64) -> (r: Vec<BurnRow>)
        ensures
            r@.len() == if limit < 0 || self@.burns.len() <= limit {
                self@.burns.len() as int
            } else {
                limit as int
            },
            forall|i: int|
                0 <= i < r@.len() ==> (#[trigger] r@[i]@) == self@.burns[self@.burns.len() - 1
                    - i].row,
    {
        let n = self.burns.len();
        let take: usize = if limit < 0 {
            n
        } else if (limit as u64) < (n as u64) {
            limit as usize
        } else {
            n
        };
        let mut out: Vec<BurnRow> = Vec::new();
        let mut i: usize = 0;
        while i < take
            invariant
                i <= take <= n,
                n == self.burns@.len(),
                out@.len() == i,
                forall|t: int|
                    0 <= t < i ==> (#[trigger] out@[t]@) == self@.burns[n - 1 - t].row,
            decreases take - i,
        {
            let row = self.burns[n - 1 - i].row.clone();
            proof {
                assert(self@.burns[n - 1 - i as int].row == self.burns@[n - 1 - i as int]@.row);
            }
            out.push(row);
            i = i + 1;
        }
        out
    }

    /// Lists stored attestations, most recent first, bounded like
    /// `list_burns`.
    pub fn list_attestations(&self, limit: i64) -> (r: Vec<AttRow>)
        ensures
            r@.len() == if limit < 0 || self@.atts.len() <= limit {
                self@.atts.len() as int
            } else {
                limit as int
            },
            forall|i: int|
                0 <= i < r@.len() ==> (#[trigger] r@[i]@) == self@.atts[self@.atts.len() - 1
                    - i].row,
    {
        let n = self.atts.len();
        let take: usize = if limit < 0 {
            n
        } else if (limit as u64) < (n as u64) {
            limit as usize
        } else {
            n
        };
        let mut out: Vec<AttRow> = Vec::new();
        let mut i: usize = 0;
        while i < take
            invariant
                i <= take <= n,
                n == self.atts@.len(),
                out@.len() == i,
                forall|t: int|
                    0 <= t < i ==> (#[trigger] out@[t]@) == self@.atts[n - 1 - t].row,
            decreases take - i,
        {
            let row = self.atts[n - 1 - i].row.clone();
            proof {
                assert(self@.atts[n - 1 - i as int].row == self.atts@[n - 1 - i as int]@.row);
            }
            out.push(row);
            i = i + 1;
        }
        out
    }

    /// The status of the attestation for an event key, if one is stored.
    pub fn status_of(&self, src_tx: &str) -> (r: Option<RelayStatus>)
        ensures
            ({
                let i = att_index(self@.atts, src_tx@);
                match r {
                    Some(st) => i >= 0 && st == self@.atts[i].status,
                    None => i < 0,
                }
            }),
    {
        let n = self.atts.len();
        let key_string = str_to_string(src_tx);
        let mut i: usize = 0;
        while i < n
            invariant
                i <= n,
                n == self.atts@.len(),
                key_string@ == src_tx@,
                forall|k: int|
                    0 <= k < i ==> (#[trigger] self.atts@[k]@.row.src_tx_hash_b64) != Some(src_tx@),
            decreases n - i,
        {
            let hit = match &self.atts[i].row.src_tx_hash_b64 {
                Some(s) => *s == key_string,
                None => false,
            };
            if hit {
                proof {
                    lemma_att_index_first(self@.atts, src_tx@, i as int);
                }
                return Some(self.atts[i].status);
            }
            proof {
                assert(self.atts@[i as int]@.row.src_tx_hash_b64 != Some(src_tx@));
            }
            i = i + 1;
        }
        proof {
            assert forall|k: int| 0 <= k < self@.atts.len() implies (#[trigger] self@.atts[k].row.src_tx_hash_b64)
                != Some(src_tx@) by {
                assert(self@.atts[k] == self.atts@[k]@);
            }
            lemma_att_index_absent(self@.atts, src_tx@);
        }
        None
    }
}

/// The view a flat-argument insert builds.
pub open spec fn insert_burn_args_view(
    tx_hash_b64: Seq<char>,
    lt: i64,
    utime: i64,
    jetton_master_raw: Seq<char>,
    owner_raw: Seq<char>,
    jetton_wallet_raw: Seq<char>,
    amount_raw: Seq<char>,
    custom_payload: Option<Seq<u8>>,
) -> TonBurnView {
    TonBurnView {
        tx_hash_b64,
        lt: lt as u64,
        utime: utime as u64,
        jetton_master_raw,
        owner_raw,
        jetton_wallet_raw,
        amount_raw,
        custom_payload,
    }
}

/// The view of an optional key argument.
pub open spec fn opt_str_view(o: Option<&str>) -> Option<Seq<char>> {
    match o {
        Some(s) => Some(s@),
        None => None,
    }
}

// ---------------------------------------------------------------------------
// Helper functions and index lemmas
// ---------------------------------------------------------------------------

/// An owned copy of a string slice.
fn str_to_string(s: &str) -> (r: String)
    ensures
        r@ == s@,
{
    s.to_owned()
}

/// An owned copy of a string.
fn self_clone_string(s: &String) -> (r: String)
    ensures
        r@ == s@,
{
    s.clone()
}

/// An owned copy of a byte vector.
fn clone_vec_u8(v: &Vec<u8>) -> (r: Vec<u8>)
    ensures
        r@ == v@,
{
    let mut r: Vec<u8> = Vec::new();
    let mut i: usize = 0;
    let n = v.len();
    while i < n
        invariant
            i <= n,
            n == v@.len(),
            r@ =~= v@.subrange(0, i as int),
        decreases n - i,
    {
        r.push(v[i]);
        i = i + 1;
        proof {
            assert(r@ =~= v@.subrange(0, i as int));
        }
    }
    proof {
        assert(v@.subrange(0, n as int) =~= v@);
    }
    r
}

/// An owned copy of a byte slice.
fn slice_to_vec_u8(s: &[u8]) -> (r: Vec<u8>)
    ensures
        r@ == s@,
{
    let mut r: Vec<u8> = Vec::new();
    let mut i: usize = 0;
    let n = s.len();
    while i < n
        invariant
            i <= n,
            n == s@.len(),
            r@ =~= s@.subrange(0, i as int),
        decreases n - i,
    {
        r.push(s[i]);
        i = i + 1;
        proof {
            assert(r@ =~= s@.subrange(0, i as int));
        }
    }
    proof {
        assert(s@.subrange(0, n as int) =~= s@);
    }
    r
}

proof fn lemma_att_index_first(atts: Seq<AttRecView>, key: Seq<char>, i: int)
    requires
        0 <= i < atts.len(),
        atts[i].row.src_tx_hash_b64 == Some(key),
        forall|k: int| 0 <= k < i ==> (#[trigger] atts[k].row.src_tx_hash_b64) != Some(key),
    ensures
        att_index(atts, key) == i,
    decreases atts.len(),
{
    if i == 0 {
    } else {
        lemma_att_index_first(atts.drop_first(), key, i - 1);
    }
}

proof fn lemma_att_index_absent(atts: Seq<AttRecView>, key: Seq<char>)
    requires
        forall|k: int| 0 <= k < atts.len() ==> (#[trigger] atts[k].row.src_tx_hash_b64) != Some(key),
    ensures
        att_index(atts, key) == -1,
    decreases atts.len(),
{
    if atts.len() > 0 {
        lemma_att_index_absent(atts.drop_first(), key);
    }
}

proof fn lemma_cursor_index_first(cs: Seq<(Seq<char>, Seq<char>)>, k: Seq<char>, i: int)
    requires
        0 <= i < cs.len(),
        cs[i].0 == k,
        forall|t: int| 0 <= t < i ==> (#[trigger] cs[t].0) != k,
    ensures
        cursor_index(cs, k) == i,
    decreases cs.len(),
{
    if i == 0 {
    } else {
        lemma_cursor_index_first(cs.drop_first(), k, i - 1);
    }
}

proof fn lemma_cursor_index_absent(cs: Seq<(Seq<char>, Seq<char>)>, k: Seq<char>)
    requires
        forall|t: int| 0 <= t < cs.len() ==> (#[trigger] cs[t].0) != k,
    ensures
        cursor_index(cs, k) == -1,
    decreases cs.len(),
{
    if cs.len() > 0 {
        lemma_cursor_index_absent(cs.drop_first(), k);
    }
}

proof fn lemma_cursor_lookup_first(cs: Seq<(Seq<char>, Seq<char>)>, k: Seq<char>, i: int)
    requires
        0 <= i < cs.len(),
        cs[i].0 == k,
        forall|t: int| 0 <= t < i ==> (#[trigger] cs[t].0) != k,
    ensures
        cursor_lookup(cs, k) == Some(cs[i].1),
    decreases cs.len(),
{
    if i == 0 {
    } else {
        lemma_cursor_lookup_first(cs.drop_first(), k, i - 1);
    }
}

proof fn lemma_cursor_lookup_absent(cs: Seq<(Seq<char>, Seq<char>)>, k: Seq<char>)
    requires
        forall|t: int| 0 <= t < cs.len() ==> (#[trigger] cs[t].0) != k,
    ensures
        cursor_lookup(cs, k) is None,
    decreases cs.len(),
{
    if cs.len() > 0 {
        lemma_cursor_lookup_absent(cs.drop_first(), k);
    }
}

/// Looking a cursor key up right after writing it finds the written value.
pub proof fn lemma_cursor_lookup_at(cs: Seq<(Seq<char>, Seq<char>)>, k: Seq<char>, i: int)
    requires
        0 <= i < cs.len(),
        cs[i].0 == k,
        forall|a: int, b: int| 0 <= a < b < cs.len() ==> (#[trigger] cs[a].0) != (#[trigger] cs[b].0),
    ensures
        cursor_lookup(cs, k) == Some(cs[i].1),
    decreases cs.len(),
{
    assert forall|t: int| 0 <= t < i implies (#[trigger] cs[t].0) != k by {
        assert(cs[t].0 != cs[i].0);
    }
    lemma_cursor_lookup_first(cs, k, i);
}

// ---------------------------------------------------------------------------
// Idempotence and at-most-once laws
// ---------------------------------------------------------------------------

proof fn lemma_burn_count_absent(burns: Seq<BurnRecView>, key: Seq<char>)
    requires
        forall|i: int| 0 <= i < burns.len() ==> (#[trigger] burns[i].row.tx_hash_b64) != key,
    ensures
        burn_count(burns, key) == 0,
    decreases burns.len(),
{
    if burns.len() > 0 {
        assert forall|i: int| 0 <= i < burns.drop_last().len() implies (#[trigger] burns.drop_last()[i].row.tx_hash_b64)
            != key by {
            assert(burns.drop_last()[i] == burns[i]);
        }
        lemma_burn_count_absent(burns.drop_last(), key);
    }
}

proof fn lemma_burn_count_unique(burns: Seq<BurnRecView>, key: Seq<char>, i: int)
    requires
        0 <= i < burns.len(),
        burns[i].row.tx_hash_b64 == key,
        forall|a: int, b: int|
            0 <= a < b < burns.len() ==> (#[trigger] burns[a].row.tx_hash_b64) != (
            #[trigger] burns[b].row.tx_hash_b64),
    ensures
        burn_count(burns, key) == 1,
    decreases burns.len(),
{
    let front = burns.drop_last();
    if i == burns.len() - 1 {
        assert forall|t: int| 0 <= t < front.len() implies (#[trigger] front[t].row.tx_hash_b64)
            != key by {
            assert(front[t] == burns[t]);
            assert(burns[t].row.tx_hash_b64 != burns[i].row.tx_hash_b64);
        }
        lemma_burn_count_absent(front, key);
    } else {
        assert(front[i] == burns[i]);
        assert forall|a: int, b: int| 0 <= a < b < front.len() implies (
        #[trigger] front[a].row.tx_hash_b64) != (#[trigger] front[b].row.tx_hash_b64) by {
            assert(front[a] == burns[a]);
            assert(front[b] == burns[b]);
        }
        lemma_burn_count_unique(front, key, i);
        assert(burns.last().row.tx_hash_b64 != key) by {
            assert(burns[i].row.tx_hash_b64 != burns[burns.len() - 1].row.tx_hash_b64);
        }
    }
}

/// Idempotence of event admission: once a burn is stored, admitting it again
/// reports `AlreadyPresent`, changes nothing, and the store holds exactly
/// one record under its transaction key — however often it is re-observed.
pub proof fn lemma_insert_event_idempotent(s: StoreView, b: TonBurnView)
    requires
        store_wf(s),
        s.burns.len() < 0x7fff_ffff_ffff_ffff,
    ensures
        ({
            let s1 = store_insert_burn(s, b);
            &&& store_wf(s1)
            &&& has_burn(s1, b.tx_hash_b64)
            &&& store_insert_burn(s1, b) == s1
            &&& burn_count(s1.burns, b.tx_hash_b64) == 1
        }),
{
    let s1 = store_insert_burn(s, b);
    if has_burn(s, b.tx_hash_b64) {
        let i = choose|i: int|
            0 <= i < s.burns.len() && #[trigger] s.burns[i].row.tx_hash_b64 == b.tx_hash_b64;
        lemma_burn_count_unique(s.burns, b.tx_hash_b64, i);
    } else {
        let rec = burn_rec_of(b, (s.burns.len() + 1) as i64);
        assert(s1.burns == s.burns.push(rec));
        assert(s1.burns[s.burns.len() as int].row.tx_hash_b64 == b.tx_hash_b64);
        assert(has_burn(s1, b.tx_hash_b64));
        assert forall|a: int, c: int| 0 <= a < c < s1.burns.len() implies (
        #[trigger] s1.burns[a].row.tx_hash_b64) != (#[trigger] s1.burns[c].row.tx_hash_b64) by {
            if c < s.burns.len() {
                assert(s1.burns[a] == s.burns[a]);
                assert(s1.burns[c] == s.burns[c]);
            } else {
                assert(s1.burns[a] == s.burns[a]);
                assert(s1.burns[c] == rec);
                assert(!has_burn(s, b.tx_hash_b64));
                assert(s.burns[a].row.tx_hash_b64 != b.tx_hash_b64);
            }
        }
        assert forall|a: int| 0 <= a < s1.burns.len() implies (#[trigger] s1.burns[a].row.id) == a
            + 1 by {
            if a < s.burns.len() {
                assert(s1.burns[a] == s.burns[a]);
            }
        }
        assert(store_wf(s1));
        lemma_burn_count_unique(s1.burns, b.tx_hash_b64, s.burns.len() as int);
    }
    assert(store_insert_burn(s1, b) == s1);
}

/// Crash safety of the cursor: once an event is admitted and its attestation
/// saved, a replay of the same event — with the cursor not yet advanced —
/// reports it as already present, leaves the store unchanged, still holds
/// exactly one record under the key, and refuses a second attestation. The
/// cursor is a resumption hint, never the deduplication authority.
pub proof fn lemma_replay_after_partial_persist(
    s: StoreView,
    b: TonBurnView,
    kind: Seq<char>,
    payload: Seq<u8>,
    hash_hex: Seq<char>,
    kind2: Seq<char>,
    payload2: Seq<u8>,
    hash2: Seq<char>,
    st2: RelayStatus,
)
    requires
        store_wf(s),
        s.burns.len() < 0x7fff_ffff_ffff_ffff,
    ensures
        ({
            let s1 = store_insert_burn(s, b);
            match store_save_att(s1, kind, payload, hash_hex, Some(b.tx_hash_b64),
                RelayStatus::Signed) {
                Ok(s2) => {
                    &&& has_burn(s2, b.tx_hash_b64)
                    &&& store_insert_burn(s2, b) == s2
                    &&& burn_count(s2.burns, b.tx_hash_b64) == 1
                    &&& store_save_att(s2, kind2, payload2, hash2, Some(b.tx_hash_b64), st2)
                        == Err::<StoreView, RelayError>(RelayError::Conflict)
                },
                Err(_) => true,
            }
        }),
{
    lemma_insert_event_idempotent(s, b);
    let s1 = store_insert_burn(s, b);
    if store_save_att(s1, kind, payload, hash_hex, Some(b.tx_hash_b64), RelayStatus::Signed)
        is Ok {
        let s2 = store_save_att(s1, kind, payload, hash_hex, Some(b.tx_hash_b64),
            RelayStatus::Signed)->Ok_0;
        assert(s2.burns == s1.burns);
        assert(has_burn(s2, b.tx_hash_b64) == has_burn(s1, b.tx_hash_b64));
        lemma_save_attestation_once(s1, kind, payload, hash_hex, b.tx_hash_b64,
            RelayStatus::Signed, kind2, payload2, hash2, st2);
    }
}

/// At most one attestation per event: saving for a key that just received
/// one is a conflict, whatever else the second save carries.
pub proof fn lemma_save_attestation_once(
    s: StoreView,
    kind1: Seq<char>,
    payload1: Seq<u8>,
    hash1: Seq<char>,
    key: Seq<char>,
    st1: RelayStatus,
    kind2: Seq<char>,
    payload2: Seq<u8>,
    hash2: Seq<char>,
    st2: RelayStatus,
)
    requires
        store_save_att(s, kind1, payload1, hash1, Some(key), st1) is Ok,
    ensures
        store_save_att(
            store_save_att(s, kind1, payload1, hash1, Some(key), st1)->Ok_0,
            kind2,
            payload2,
            hash2,
            Some(key),
            st2,
        ) == Err::<StoreView, RelayError>(RelayError::Conflict),
{
    let s1 = store_save_att(s, kind1, payload1, hash1, Some(key), st1)->Ok_0;
    assert(s1.atts[s.atts.len() as int].row.src_tx_hash_b64 == Some(key));
    assert(has_att(s1, key));
}

} // verus!
