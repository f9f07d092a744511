use vstd::prelude::*;

use crate::slot::Slot;

verus! {

/// Which way a packet travels.
#[derive(Clone, Copy, Debug, PartialEq, Eq, Structural)]
pub enum Direction {
    Serverbound,
    Clientbound,
}

/// The stage a connection is in; it decides which packet codes are valid.
#[derive(Clone, Copy, Debug, PartialEq, Eq, Structural)]
pub enum Phase {
    Handshake,
    Status,
    Login,
    Configuration,
    Play,
}

/// Acknowledgement to the login success packet sent by the server.
#[derive(Clone, Copy, Debug, PartialEq, Eq, Structural)]
pub struct SLoginAcknowledged;

/// Tells the client that configuration is over.
#[derive(Clone, Copy, Debug, PartialEq, Eq, Structural)]
pub struct CFinishConfig;

/// A creative-mode client puts an item stack into an inventory slot.
#[derive(Clone, Copy, Debug, PartialEq, Eq, Structural)]
pub struct SSetCreativeSlot {
    pub slot: i16,
    pub clicked_item: Slot,
}

/// The packet types this codec knows.
#[derive(Clone, Copy, Debug, PartialEq, Eq, Structural)]
pub enum PacketKind {
    LoginAcknowledged,
    FinishConfig,
    SetCreativeSlot,
}

/// A typed packet value.
#[derive(Clone, Copy, Debug, PartialEq, Eq, Structural)]
pub enum Packet {
    LoginAcknowledged(SLoginAcknowledged),
    FinishConfig(CFinishConfig),
    SetCreativeSlot(SSetCreativeSlot),
}

impl Packet {
    pub open spec fn spec_kind(&self) -> PacketKind {
        match self {
            Packet::LoginAcknowledged(_) => PacketKind::LoginAcknowledged,
            Packet::FinishConfig(_) => PacketKind::FinishConfig,
            Packet::SetCreativeSlot(_) => PacketKind::SetCreativeSlot,
        }
    }

    /// Every slot the packet carries is well formed.
    pub open spec fn wf(&self) -> bool {
        match self {
            Packet::SetCreativeSlot(p) => p.clicked_item.wf(),
            _ => true,
        }
    }

    /// The packet's type.
    pub fn kind(&self) -> (r: PacketKind)
        ensures
            r == self.spec_kind(),
    {
        match self {
            Packet::LoginAcknowledged(_) => PacketKind::LoginAcknowledged,
            Packet::FinishConfig(_) => PacketKind::FinishConfig,
            Packet::SetCreativeSlot(_) => PacketKind::SetCreativeSlot,
        }
    }
}

/// One row of the packet identity table: `kind` has `code` in `direction` and `phase`.
#[derive(Clone, Copy, Debug, PartialEq, Eq, Structural)]
pub struct PacketEntry {
    pub kind: PacketKind,
    pub direction: Direction,
    pub phase: Phase,
    pub code: i32,
}

/// Two rows that would make a code or a type ambiguous within one direction and phase.
pub open spec fn entries_conflict(a: PacketEntry, b: PacketEntry) -> bool {
    a.direction == b.direction && a.phase == b.phase && (a.code == b.code || a.kind == b.kind)
}

/// Within each direction and phase, codes and types are in one-to-one correspondence,
/// and every code is non-negative.
pub open spec fn table_wf(es: Seq<PacketEntry>) -> bool {
    &&& forall|i: int| 0 <= i < es.len() ==> 0 <= #[trigger] es[i].code
    &&& forall|i: int, j: int|
        0 <= i < j < es.len() ==> !entries_conflict(#[trigger] es[i], #[trigger] es[j])
}

/// The type of the first row of `es` with this direction, phase and code.
pub open spec fn find_kind(es: Seq<PacketEntry>, direction: Direction, phase: Phase, code: i32) -> Option<
    PacketKind,
>
    decreases es.len(),
{
    if es.len() == 0 {
        None
    } else if es[0].direction == direction && es[0].phase == phase && es[0].code == code {
        Some(es[0].kind)
    } else {
        find_kind(es.drop_first(), direction, phase, code)
    }
}

/// The code of the first row of `es` with this type, direction and phase.
pub open spec fn find_code(es: Seq<PacketEntry>, kind: PacketKind, direction: Direction, phase: Phase) -> Option<
    i32,
>
    decreases es.len(),
{
    if es.len() == 0 {
        None
    } else if es[0].kind == kind && es[0].direction == direction && es[0].phase == phase {
        Some(es[0].code)
    } else {
        find_code(es.drop_first(), kind, direction, phase)
    }
}

/// The immutable table that maps each packet type to its code per direction and phase.
pub struct PacketTable {
    entries: Vec<PacketEntry>,
}

impl View for PacketTable {
    type V = Seq<PacketEntry>;

    closed spec fn view(&self) -> Seq<PacketEntry> {
        self.entries@
    }
}

impl PacketTable {
    pub open spec fn wf(&self) -> bool {
        table_wf(self@)
    }

    /// A table of the given rows, or `None` where two rows share a code or a type within
    /// one direction and phase, or a code is negative.
    pub fn new(entries: Vec<PacketEntry>) -> (r: Option<PacketTable>)
        ensures
            r is Some <==> table_wf(entries@),
            r matches Some(t) ==> t@ == entries@,
    {
        let n = entries.len();
        let mut i: usize = 0;
        while i < n
            invariant
                n == entries@.len(),
                i <= n,
                forall|a: int| 0 <= a < i ==> 0 <= #[trigger] entries@[a].code,
                forall|a: int, b: int|
                    0 <= a < i && a < b < n ==> !entries_conflict(
                        #[trigger] entries@[a],
                        #[trigger] entries@[b],
                    ),
            decreases n - i,
        {
            let a = entries[i];
            if a.code < 0 {
                return None;
            }
            let mut j: usize = i + 1;
            while j < n
                invariant
                    n == entries@.len(),
                    i < j <= n,
                    a == entries@[i as int],
                    forall|b: int| i < b < j ==> !entries_conflict(a, #[trigger] entries@[b]),
                decreases n - j,
            {
                let b = entries[j];
                if a.direction == b.direction && a.phase == b.phase && (a.code == b.code
                    || a.kind == b.kind) {
                    return None;
                }
                j += 1;
            }
            i += 1;
        }
        Some(PacketTable { entries })
    }

    /// The number of rows.
    pub fn len(&self) -> (r: usize)
        ensures
            r == self@.len(),
    {
        self.entries.len()
    }

    /// The type registered for `code` in this direction and phase.
    pub fn type_for(&self, direction: Direction, phase: Phase, code: i32) -> (r: Option<PacketKind>)
        ensures
            r == find_kind(self@, direction, phase, code),
    {
        let mut i: usize = 0;
        assert(self@.skip(0) =~= self@);
        while i < self.entries.len()
            invariant
                i <= self@.len(),
                find_kind(self@, direction, phase, code) == find_kind(
                    self@.skip(i as int),
                    direction,
                    phase,
                    code,
                ),
            decreases self@.len() - i,
        {
            let e = self.entries[i];
            assert(self@.skip(i as int)[0] == e);
            if e.direction == direction && e.phase == phase && e.code == code {
                return Some(e.kind);
            }
            assert(self@.skip(i as int).drop_first() =~= self@.skip(i + 1));
            i += 1;
        }
        None
    }

    /// The code of `kind` in this direction and phase.
    pub fn code_for(&self, kind: PacketKind, direction: Direction, phase: Phase) -> (r: Option<i32>)
        ensures
            r == find_code(self@, kind, direction, phase),
    {
        let mut i: usize = 0;
        assert(self@.skip(0) =~= self@);
        while i < self.entries.len()
            invariant
                i <= self@.len(),
                find_code(self@, kind, direction, phase) == find_code(
                    self@.skip(i as int),
                    kind,
                    direction,
                    phase,
                ),
            decreases self@.len() - i,
        {
            let e = self.entries[i];
            assert(self@.skip(i as int)[0] == e);
            if e.kind == kind && e.direction == direction && e.phase == phase {
                return Some(e.code);
            }
            assert(self@.skip(i as int).drop_first() =~= self@.skip(i + 1));
            i += 1;
        }
        None
    }
}

/// Code of the login acknowledgement, serverbound in the login phase.
pub const LOGIN_LOGIN_ACKNOWLEDGED: i32 = 3;

/// Code of the end of configuration, clientbound in the configuration phase.
pub const CONFIG_FINISH_CONFIGURATION: i32 = 3;

/// Code of the creative slot update, serverbound in the play phase.
pub const PLAY_SET_CREATIVE_MODE_SLOT: i32 = 0x36;

/// The rows of the table that the server uses.
pub open spec fn standard_entries() -> Seq<PacketEntry> {
    seq![
        PacketEntry {
            kind: PacketKind::LoginAcknowledged,
            direction: Direction::Serverbound,
            phase: Phase::Login,
            code: LOGIN_LOGIN_ACKNOWLEDGED,
        },
        PacketEntry {
            kind: PacketKind::FinishConfig,
            direction: Direction::Clientbound,
            phase: Phase::Configuration,
            code: CONFIG_FINISH_CONFIGURATION,
        },
        PacketEntry {
            kind: PacketKind::SetCreativeSlot,
            direction: Direction::Serverbound,
            phase: Phase::Play,
            code: PLAY_SET_CREATIVE_MODE_SLOT,
        },
    ]
}

impl PacketTable {
    /// The table that the server uses.
    pub fn standard() -> (r: PacketTable)
        ensures
            r@ == standard_entries(),
            r.wf(),
    {
        let mut entries: Vec<PacketEntry> = Vec::new();
        entries.push(
            PacketEntry {
                kind: PacketKind::LoginAcknowledged,
                direction: Direction::Serverbound,
                phase: Phase::Login,
                code: LOGIN_LOGIN_ACKNOWLEDGED,
            },
        );
        entries.push(
            PacketEntry {
                kind: PacketKind::FinishConfig,
                direction: Direction::Clientbound,
                phase: Phase::Configuration,
                code: CONFIG_FINISH_CONFIGURATION,
            },
        );
        entries.push(
            PacketEntry {
                kind: PacketKind::SetCreativeSlot,
                direction: Direction::Serverbound,
                phase: Phase::Play,
                code: PLAY_SET_CREATIVE_MODE_SLOT,
            },
        );
        assert(entries@ =~= standard_entries());
        PacketTable { entries }
    }
}

proof fn lemma_table_wf_tail(es: Seq<PacketEntry>)
    requires
        table_wf(es),
        es.len() > 0,
    ensures
        table_wf(es.drop_first()),
{
    let t = es.drop_first();
    assert forall|i: int| 0 <= i < t.len() implies 0 <= #[trigger] t[i].code by {
        assert(t[i] == es[i + 1]);
    }
    assert forall|i: int, j: int| 0 <= i < j < t.len() implies !entries_conflict(
        #[trigger] t[i],
        #[trigger] t[j],
    ) by {
        assert(t[i] == es[i + 1] && t[j] == es[j + 1]);
    }
}

proof fn lemma_find_kind_at(es: Seq<PacketEntry>, i: int)
    requires
        table_wf(es),
        0 <= i < es.len(),
    ensures
        find_kind(es, es[i].direction, es[i].phase, es[i].code) == Some(es[i].kind),
    decreases es.len(),
{
    if i > 0 {
        assert(!entries_conflict(es[0], es[i]));
        lemma_table_wf_tail(es);
        assert(es.drop_first()[i - 1] == es[i]);
        lemma_find_kind_at(es.drop_first(), i - 1);
    }
}

proof fn lemma_find_code_index(
    es: Seq<PacketEntry>,
    kind: PacketKind,
    direction: Direction,
    phase: Phase,
) -> (i: int)
    requires
        find_code(es, kind, direction, phase) is Some,
    ensures
        0 <= i < es.len(),
        es[i].kind == kind,
        es[i].direction == direction,
        es[i].phase == phase,
        es[i].code == find_code(es, kind, direction, phase)->Some_0,
    decreases es.len(),
{
    if es[0].kind == kind && es[0].direction == direction && es[0].phase == phase {
        0
    } else {
        let j = lemma_find_code_index(es.drop_first(), kind, direction, phase);
        assert(es.drop_first()[j] == es[j + 1]);
        j + 1
    }
}

/// In a well-formed table no two distinct rows of one direction and phase share a code,
/// and none share a packet type.
pub proof fn lemma_codes_unique(t: &PacketTable, i: int, j: int)
    requires
        t.wf(),
        0 <= i < t@.len(),
        0 <= j < t@.len(),
        i != j,
        t@[i].direction == t@[j].direction,
        t@[i].phase == t@[j].phase,
    ensures
        t@[i].code != t@[j].code,
        t@[i].kind != t@[j].kind,
{
    if i < j {
        assert(!entries_conflict(t@[i], t@[j]));
    } else {
        assert(!entries_conflict(t@[j], t@[i]));
    }
}

/// In a well-formed table the code found for a type leads back to that type, so the
/// encoding and the dispatching direction agree.
pub proof fn lemma_code_for_type_for(
    t: &PacketTable,
    kind: PacketKind,
    direction: Direction,
    phase: Phase,
)
    requires
        t.wf(),
        find_code(t@, kind, direction, phase) is Some,
    ensures
        find_kind(t@, direction, phase, find_code(t@, kind, direction, phase)->Some_0) == Some(
            kind,
        ),
{
    let i = lemma_find_code_index(t@, kind, direction, phase);
    lemma_find_kind_at(t@, i);
}

} // verus!
