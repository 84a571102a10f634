//! The directory: relay descriptors, the network consensus, its parser, and
//! bandwidth-weighted relay selection under per-hop role constraints.
use chrono::{Datelike, Timelike};
use vstd::prelude::*;
use vstd::string::StringSliceAdditionalSpecFns;
use vstd::utf8::*;
use crate::network::cells::{push_all, slice_range};
use crate::text::{
    all_ascii, all_digits, ascii_chars, ascii_string, decimal, decimal_padded, digits_value,
    lemma_concat_ascii, lemma_decimal_ascii, push_decimal_padded, parse_decimal, parse_unsigned, split_bytes, split_on,
    split_words, trim, trim_bounds, utf8_string, views, words,
};

verus! {

/// A signature an authority put on a consensus.
#[derive(Debug, Clone)]
pub struct ConsensusSignature {
    pub algorithm: String,
    pub identity: String,
    pub signature: Vec<u8>,
}

#[derive(Debug)]
pub enum DirectoryError {
    NoSuitableRelays,
    RequestFailed(String),
    InvalidConsensus(String),
    ParseError(String),
}

/// An IPv4 OR-port address.
#[derive(Debug, Clone, Copy, PartialEq, Eq)]
pub struct OrAddress {
    pub ip: [u8; 4],
    pub port: u16,
}

impl View for OrAddress {
    type V = (Seq<u8>, u16);

    open spec fn view(&self) -> (Seq<u8>, u16) {
        (self.ip@, self.port)
    }
}

#[derive(Debug, Clone)]
pub enum RelayFlag {
    Exit,
    Guard,
    Middle,
    Fast,
    Stable,
    Running,
    Valid,
    HSDir,
    V2Dir,
    Authority,
    BadExit,
    Unknown(String),
}

/// A flag as a value: an unknown flag is its text.
pub enum FlagView {
    Exit,
    Guard,
    Middle,
    Fast,
    Stable,
    Running,
    Valid,
    HSDir,
    V2Dir,
    Authority,
    BadExit,
    Unknown(Seq<char>),
}

/// Which flag `f` is, with every unknown flag sharing one number.
pub open spec fn flag_kind(f: FlagView) -> u8 {
    match f {
        FlagView::Exit => 0u8,
        FlagView::Guard => 1u8,
        FlagView::Middle => 2u8,
        FlagView::Fast => 3u8,
        FlagView::Stable => 4u8,
        FlagView::Running => 5u8,
        FlagView::Valid => 6u8,
        FlagView::HSDir => 7u8,
        FlagView::V2Dir => 8u8,
        FlagView::Authority => 9u8,
        FlagView::BadExit => 10u8,
        FlagView::Unknown(_) => 11u8,
    }
}

impl View for RelayFlag {
    type V = FlagView;

    open spec fn view(&self) -> FlagView {
        match self {
            RelayFlag::Exit => FlagView::Exit,
            RelayFlag::Guard => FlagView::Guard,
            RelayFlag::Middle => FlagView::Middle,
            RelayFlag::Fast => FlagView::Fast,
            RelayFlag::Stable => FlagView::Stable,
            RelayFlag::Running => FlagView::Running,
            RelayFlag::Valid => FlagView::Valid,
            RelayFlag::HSDir => FlagView::HSDir,
            RelayFlag::V2Dir => FlagView::V2Dir,
            RelayFlag::Authority => FlagView::Authority,
            RelayFlag::BadExit => FlagView::BadExit,
            RelayFlag::Unknown(s) => FlagView::Unknown(s@),
        }
    }
}

impl RelayFlag {
    /// Which flag this is, with every unknown flag sharing one number.
    pub fn kind(&self) -> (k: u8)
        ensures
            k == flag_kind(self@),
    {
        match self {
            RelayFlag::Exit => 0u8,
            RelayFlag::Guard => 1u8,
            RelayFlag::Middle => 2u8,
            RelayFlag::Fast => 3u8,
            RelayFlag::Stable => 4u8,
            RelayFlag::Running => 5u8,
            RelayFlag::Valid => 6u8,
            RelayFlag::HSDir => 7u8,
            RelayFlag::V2Dir => 8u8,
            RelayFlag::Authority => 9u8,
            RelayFlag::BadExit => 10u8,
            RelayFlag::Unknown(_) => 11u8,
        }
    }

    /// Whether two flags are the same flag.
    pub fn same(&self, other: &RelayFlag) -> (r: bool)
        ensures
            r == (self@ == other@),
    {
        let ka = self.kind();
        let kb = other.kind();
        if ka != kb {
            return false;
        }
        match self {
            RelayFlag::Unknown(a) => match other {
                RelayFlag::Unknown(b) => *a == *b,
                _ => false,
            },
            _ => true,
        }
    }

    /// A flag equal to this one.
    pub fn copy(&self) -> (r: RelayFlag)
        ensures
            r@ == self@,
    {
        match self {
            RelayFlag::Exit => RelayFlag::Exit,
            RelayFlag::Guard => RelayFlag::Guard,
            RelayFlag::Middle => RelayFlag::Middle,
            RelayFlag::Fast => RelayFlag::Fast,
            RelayFlag::Stable => RelayFlag::Stable,
            RelayFlag::Running => RelayFlag::Running,
            RelayFlag::Valid => RelayFlag::Valid,
            RelayFlag::HSDir => RelayFlag::HSDir,
            RelayFlag::V2Dir => RelayFlag::V2Dir,
            RelayFlag::Authority => RelayFlag::Authority,
            RelayFlag::BadExit => RelayFlag::BadExit,
            RelayFlag::Unknown(s) => RelayFlag::Unknown(s.clone()),
        }
    }
}

impl PartialEq for RelayFlag {
    fn eq(&self, other: &RelayFlag) -> (r: bool) {
        self.same(other)
    }
}

impl vstd::std_specs::cmp::PartialEqSpecImpl for RelayFlag {
    open spec fn obeys_eq_spec() -> bool {
        true
    }

    open spec fn eq_spec(&self, other: &RelayFlag) -> bool {
        self@ == other@
    }
}

/// A relay as the directory lists it.
#[derive(Debug, Clone)]
pub struct RelayDescriptor {
    pub id: String,
    pub nickname: String,
    pub address: OrAddress,
    pub identity_key: Vec<u8>,
    pub onion_key: Vec<u8>,
    pub bandwidth: u32,
    pub flags: Vec<RelayFlag>,
}

/// A relay descriptor as a value.
pub struct RelayView {
    pub id: Seq<char>,
    pub nickname: Seq<char>,
    pub address: (Seq<u8>, u16),
    pub identity_key: Seq<u8>,
    pub onion_key: Seq<u8>,
    pub bandwidth: u32,
    pub flags: Seq<FlagView>,
}

pub open spec fn flag_views(f: Seq<RelayFlag>) -> Seq<FlagView> {
    f.map_values(|x: RelayFlag| x@)
}

pub open spec fn relay_views(rs: Seq<RelayDescriptor>) -> Seq<RelayView> {
    rs.map_values(|r: RelayDescriptor| r@)
}

impl View for RelayDescriptor {
    type V = RelayView;

    open spec fn view(&self) -> RelayView {
        RelayView {
            id: self.id@,
            nickname: self.nickname@,
            address: self.address@,
            identity_key: self.identity_key@,
            onion_key: self.onion_key@,
            bandwidth: self.bandwidth,
            flags: flag_views(self.flags@),
        }
    }
}

pub fn copy_bytes(b: &Vec<u8>) -> (r: Vec<u8>)
    ensures
        r@ == b@,
{
    let mut out: Vec<u8> = Vec::with_capacity(b.len());
    let mut i: usize = 0;
    while i < b.len()
        invariant
            i <= b@.len(),
            out@ == b@.subrange(0, i as int),
        decreases b@.len() - i,
    {
        out.push(b[i]);
        i += 1;
        assert(out@ =~= b@.subrange(0, i as int));
    }
    assert(b@.subrange(0, b@.len() as int) =~= b@);
    out
}

pub fn copy_flags(f: &Vec<RelayFlag>) -> (r: Vec<RelayFlag>)
    ensures
        flag_views(r@) == flag_views(f@),
{
    let mut out: Vec<RelayFlag> = Vec::with_capacity(f.len());
    let mut i: usize = 0;
    while i < f.len()
        invariant
            i <= f@.len(),
            out@.len() == i,
            forall|k: int| 0 <= k < i ==> (#[trigger] out@[k])@ == f@[k]@,
        decreases f@.len() - i,
    {
        let c = f[i].copy();
        out.push(c);
        i += 1;
    }
    assert(flag_views(out@) =~= flag_views(f@));
    out
}

impl RelayDescriptor {
    /// A descriptor equal to this one, owned by the caller.
    pub fn copy(&self) -> (r: RelayDescriptor)
        ensures
            r@ == self@,
    {
        RelayDescriptor {
            id: self.id.clone(),
            nickname: self.nickname.clone(),
            address: self.address,
            identity_key: copy_bytes(&self.identity_key),
            onion_key: copy_bytes(&self.onion_key),
            bandwidth: self.bandwidth,
            flags: copy_flags(&self.flags),
        }
    }
}

pub open spec fn holds_flag(flags: Seq<FlagView>, f: FlagView) -> bool {
    flags.contains(f)
}

/// Whether a relay may stand at position `hop` of a circuit: guard at 0,
/// exit at 2, middle at 1 and at every position beyond 2. Every position
/// wants a running, valid relay that is not a bad exit.
pub open spec fn suitable(r: RelayView, hop: nat) -> bool {
    let f = r.flags;
    &&& holds_flag(f, FlagView::Running)
    &&& holds_flag(f, FlagView::Valid)
    &&& !holds_flag(f, FlagView::BadExit)
    &&& if hop == 0 {
        holds_flag(f, FlagView::Guard) && holds_flag(f, FlagView::Fast)
    } else if hop != 2 {
        if holds_flag(f, FlagView::Middle) {
            holds_flag(f, FlagView::Fast)
        } else {
            holds_flag(f, FlagView::Fast) && holds_flag(f, FlagView::Stable) && !holds_flag(f, FlagView::Guard) && !holds_flag(
                f,
                FlagView::Exit,
            )
        }
    } else {
        holds_flag(f, FlagView::Exit) && holds_flag(f, FlagView::Fast)
    }
}

/// The role of a relay in a circuit.
#[derive(Debug, Clone, Copy, PartialEq, Eq, Structural)]
pub enum HopRole {
    Guard,
    Middle,
    Exit,
}

/// The role of hop `hop` of a circuit of `num_hops`: the first is the
/// guard, the last (when there are two or more) the exit, the others
/// middles.
pub open spec fn role_of(hop: nat, num_hops: nat) -> HopRole {
    if hop == 0 {
        HopRole::Guard
    } else if hop + 1 == num_hops {
        HopRole::Exit
    } else {
        HopRole::Middle
    }
}

/// The position whose suitability rule a role follows.
pub open spec fn role_position(role: HopRole) -> nat {
    match role {
        HopRole::Guard => 0,
        HopRole::Middle => 1,
        HopRole::Exit => 2,
    }
}

/// The role of hop `hop` of a circuit of `num_hops`.
pub fn role_for_hop(hop: usize, num_hops: usize) -> (r: HopRole)
    ensures
        r == role_of(hop as nat, num_hops as nat),
{
    if hop == 0 {
        HopRole::Guard
    } else if num_hops > 0 && hop == num_hops - 1 {
        HopRole::Exit
    } else {
        HopRole::Middle
    }
}

/// The relaxed condition used when no relay suits a position.
pub open spec fn fallback_ok(r: RelayView) -> bool {
    holds_flag(r.flags, FlagView::Running) && holds_flag(r.flags, FlagView::Valid) && !holds_flag(
        r.flags,
        FlagView::BadExit,
    )
}

/// Whether `flags` holds `f`.
pub fn has_flag(flags: &Vec<RelayFlag>, f: &RelayFlag) -> (r: bool)
    ensures
        r == holds_flag(flag_views(flags@), f@),
{
    let mut i: usize = 0;
    while i < flags.len()
        invariant
            i <= flags@.len(),
            forall|k: int| 0 <= k < i ==> flags@[k]@ != f@,
        decreases flags@.len() - i,
    {
        if flags[i].same(f) {
            assert(flag_views(flags@)[i as int] == f@);
            return true;
        }
        i += 1;
    }
    assert(!holds_flag(flag_views(flags@), f@)) by {
        if holds_flag(flag_views(flags@), f@) {
            let k = choose|k: int| 0 <= k < flag_views(flags@).len() && flag_views(flags@)[k] == f@;
            assert(flags@[k]@ == f@);
        }
    }
    false
}

impl DirectoryClient {
    /// Whether `relay` may stand at position `hop`.
    pub fn is_relay_suitable(relay: &RelayDescriptor, hop: usize) -> (r: bool)
        ensures
            r == suitable(relay@, hop as nat),
    {
        let f = &relay.flags;
        if !has_flag(f, &RelayFlag::Running) || !has_flag(f, &RelayFlag::Valid) {
            return false;
        }
        if has_flag(f, &RelayFlag::BadExit) {
            return false;
        }
        if hop == 0 {
            has_flag(f, &RelayFlag::Guard) && has_flag(f, &RelayFlag::Fast)
        } else if hop != 2 {
            if has_flag(f, &RelayFlag::Middle) {
                return has_flag(f, &RelayFlag::Fast);
            }
            has_flag(f, &RelayFlag::Fast) && has_flag(f, &RelayFlag::Stable) && !has_flag(
                f,
                &RelayFlag::Guard,
            ) && !has_flag(f, &RelayFlag::Exit)
        } else {
            has_flag(f, &RelayFlag::Exit) && has_flag(f, &RelayFlag::Fast)
        }
    }
}

/// The state of the directory: the consensus it holds, if any, and when it
/// was installed (seconds since the Unix epoch).
#[derive(Debug)]
pub struct DirectoryClient {
    consensus: Option<NetworkConsensus>,
    last_update: u64,
    use_real_consensus: bool,
}

/// A snapshot of the network: its validity window (seconds since the Unix
/// epoch) and its relays, whose ids are unique.
#[derive(Debug, Clone)]
pub struct NetworkConsensus {
    pub valid_after: u64,
    pub valid_until: u64,
    pub relays: Vec<RelayDescriptor>,
    pub signatures: Vec<ConsensusSignature>,
}

/// The relays of `rs` that suit position `hop`, in order.
pub open spec fn keep_suitable(rs: Seq<RelayView>, hop: nat) -> Seq<RelayView>
    decreases rs.len(),
{
    if rs.len() == 0 {
        Seq::<RelayView>::empty()
    } else {
        let p = keep_suitable(rs.drop_last(), hop);
        if suitable(rs.last(), hop) {
            p.push(rs.last())
        } else {
            p
        }
    }
}

/// The relays of `rs` that meet the relaxed condition, in order.
pub open spec fn keep_fallback(rs: Seq<RelayView>) -> Seq<RelayView>
    decreases rs.len(),
{
    if rs.len() == 0 {
        Seq::<RelayView>::empty()
    } else {
        let p = keep_fallback(rs.drop_last());
        if fallback_ok(rs.last()) {
            p.push(rs.last())
        } else {
            p
        }
    }
}

/// The relays a position draws from: the suitable ones, or, when there are
/// none, the relaxed set.
pub open spec fn candidates(rs: Seq<RelayView>, hop: nat) -> Seq<RelayView> {
    if keep_suitable(rs, hop).len() > 0 {
        keep_suitable(rs, hop)
    } else {
        keep_fallback(rs)
    }
}

/// Sum of the bandwidths.
pub open spec fn total_bandwidth(rs: Seq<RelayView>) -> nat
    decreases rs.len(),
{
    if rs.len() == 0 {
        0
    } else {
        total_bandwidth(rs.drop_last()) + rs.last().bandwidth as nat
    }
}

/// The index that a draw below the total bandwidth selects: walking the
/// list, the first relay whose bandwidth exceeds what is left of the draw.
pub open spec fn weighted_index(rs: Seq<RelayView>, draw: nat) -> nat
    decreases rs.len(),
{
    if rs.len() == 0 {
        0
    } else if draw < rs[0].bandwidth as nat {
        0
    } else {
        1 + weighted_index(rs.drop_first(), (draw - rs[0].bandwidth) as nat)
    }
}

/// The index a draw selects: by bandwidth, or directly when all bandwidths
/// are zero.
pub open spec fn selected_index(rs: Seq<RelayView>, draw: nat) -> nat {
    if total_bandwidth(rs) == 0 {
        draw
    } else {
        weighted_index(rs, draw)
    }
}

/// What a draw may be for `rs`: below the total bandwidth, or below the
/// count when that total is zero.
pub open spec fn draw_in_range(rs: Seq<RelayView>, draw: nat) -> bool {
    if total_bandwidth(rs) == 0 {
        draw < rs.len()
    } else {
        draw < total_bandwidth(rs)
    }
}

pub proof fn lemma_total_first(rs: Seq<RelayView>)
    requires
        rs.len() > 0,
    ensures
        total_bandwidth(rs) == rs[0].bandwidth as nat + total_bandwidth(rs.drop_first()),
    decreases rs.len(),
{
    if rs.len() > 1 {
        lemma_total_first(rs.drop_last());
        assert(rs.drop_last().drop_first() =~= rs.drop_first().drop_last());
        assert(rs.drop_first().last() == rs.last());
        assert(rs.drop_last()[0] == rs[0]);
        assert(total_bandwidth(rs.drop_first()) == total_bandwidth(rs.drop_first().drop_last())
            + rs.last().bandwidth as nat);
    } else {
        assert(rs.drop_first().len() == 0);
        assert(rs.drop_last().len() == 0);
        assert(total_bandwidth(rs.drop_last()) == 0);
        assert(total_bandwidth(rs.drop_first()) == 0);
    }
}

pub proof fn lemma_weighted_index_in_range(rs: Seq<RelayView>, draw: nat)
    requires
        draw < total_bandwidth(rs),
    ensures
        weighted_index(rs, draw) < rs.len(),
    decreases rs.len(),
{
    if rs.len() == 0 {
    } else {
        lemma_total_first(rs);
        if draw >= rs[0].bandwidth as nat {
            lemma_weighted_index_in_range(rs.drop_first(), (draw - rs[0].bandwidth) as nat);
        }
    }
}

pub proof fn lemma_total_prefix(rs: Seq<RelayView>, i: int)
    requires
        0 <= i < rs.len(),
    ensures
        total_bandwidth(rs.subrange(0, i + 1)) == total_bandwidth(rs.subrange(0, i))
            + rs[i].bandwidth as nat,
{
    assert(rs.subrange(0, i + 1).drop_last() =~= rs.subrange(0, i));
}

/// Relies on rand's `gen_range` on the thread-local generator: a value in
/// `0..n`. It panics on an empty range, which `requires` leaves out.
#[verifier::external_body]
fn random_below(n: u128) -> (r: u128)
    requires
        n > 0,
    ensures
        r < n,
{
    rand::Rng::gen_range(&mut rand::thread_rng(), 0..n)
}

impl DirectoryClient {
    /// A relay for hop `hop` of a circuit of `num_hops`, drawn as
    /// `select_relay` draws for the position of that hop's role.
    pub fn select_relay_for_hop(&self, hop: usize, num_hops: usize) -> (r: Result<
        RelayDescriptor,
        DirectoryError,
    >)
        ensures
            match self.held_relays() {
                None => r matches Err(DirectoryError::NoSuitableRelays),
                Some(rs) => {
                    let cs = candidates(rs, role_position(role_of(hop as nat, num_hops as nat)));
                    &&& cs.len() == 0 ==> (r matches Err(DirectoryError::NoSuitableRelays))
                    &&& cs.len() > 0 ==> (r matches Ok(d) && cs.contains(d@))
                },
            },
    {
        let position: usize = match role_for_hop(hop, num_hops) {
            HopRole::Guard => 0,
            HopRole::Middle => 1,
            HopRole::Exit => 2,
        };
        self.select_relay(position)
    }

    /// The relays of the consensus held, if one is.
    pub closed spec fn held_relays(&self) -> Option<Seq<RelayView>> {
        match self.consensus {
            None => None,
            Some(c) => Some(relay_views(c.relays@)),
        }
    }

    /// The validity window of the consensus held, if one is.
    pub closed spec fn held_window(&self) -> Option<(u64, u64)> {
        match self.consensus {
            None => None,
            Some(c) => Some((c.valid_after, c.valid_until)),
        }
    }

    /// Sum of the bandwidths of `relays`.
    pub fn total_bandwidth(relays: &Vec<RelayDescriptor>) -> (r: u128)
        ensures
            r as nat == total_bandwidth(relay_views(relays@)),
    {
        let ghost rs = relay_views(relays@);
        let mut total: u128 = 0;
        let mut i: usize = 0;
        while i < relays.len()
            invariant
                i <= relays@.len(),
                rs == relay_views(relays@),
                total as nat == total_bandwidth(rs.subrange(0, i as int)),
                total <= i * 0x1_0000_0000,
                i <= usize::MAX,
            decreases relays@.len() - i,
        {
            proof {
                lemma_total_prefix(rs, i as int);
            }
            total = total + relays[i].bandwidth as u128;
            i += 1;
        }
        assert(rs.subrange(0, relays@.len() as int) =~= rs);
        total
    }

    /// The relay that `draw` selects from `relays`: walking the list, the
    /// first whose bandwidth exceeds what is left of the draw; when every
    /// bandwidth is zero, the relay at index `draw`.
    pub fn select_weighted_with(relays: &Vec<RelayDescriptor>, draw: u128) -> (r:
        RelayDescriptor)
        requires
            draw_in_range(relay_views(relays@), draw as nat),
        ensures
            selected_index(relay_views(relays@), draw as nat) < relays@.len(),
            r@ == relays@[selected_index(relay_views(relays@), draw as nat) as int]@,
    {
        let ghost rs = relay_views(relays@);
        let total = Self::total_bandwidth(relays);
        if total == 0 {
            assert(selected_index(rs, draw as nat) == draw as nat);
            assert(draw < relays@.len());
            let len = relays.len();
            assert(draw < len as u128);
            let idx = draw as usize;
            assert(idx as int == draw as int);
            let item = &relays[idx];
            assert(*item == relays@[idx as int]);
            let r = item.copy();
            assert(r@ == relays@[draw as int]@);
            return r;
        }
        assert(selected_index(rs, draw as nat) == weighted_index(rs, draw as nat));
        proof {
            lemma_weighted_index_in_range(rs, draw as nat);
        }
        assert(rs.subrange(0, rs.len() as int) =~= rs);
        let mut sel: u128 = draw;
        let mut i: usize = 0;
        while i < relays.len()
            invariant
                i <= relays@.len(),
                rs == relay_views(relays@),
                i + weighted_index(rs.subrange(i as int, rs.len() as int), sel as nat)
                    == weighted_index(rs, draw as nat),
                weighted_index(rs, draw as nat) < rs.len(),
                selected_index(rs, draw as nat) == weighted_index(rs, draw as nat),
            decreases relays@.len() - i,
        {
            let ghost rest = rs.subrange(i as int, rs.len() as int);
            assert(rest.drop_first() =~= rs.subrange(i + 1, rs.len() as int));
            assert(rest[0] == relays@[i as int]@);
            if sel < relays[i].bandwidth as u128 {
                assert(weighted_index(rest, sel as nat) == 0);
                let r = relays[i].copy();
                assert(r@ == relays@[i as int]@);
                return r;
            }
            sel = sel - relays[i].bandwidth as u128;
            i += 1;
        }
        assert(false);
        relays[0].copy()
    }

    /// A relay of `relays` drawn with probability proportional to its
    /// bandwidth, or uniformly when every bandwidth is zero.
    pub fn select_weighted(relays: &Vec<RelayDescriptor>) -> (r: Result<
        RelayDescriptor,
        DirectoryError,
    >)
        ensures
            relays@.len() == 0 ==> (r matches Err(DirectoryError::NoSuitableRelays)),
            relays@.len() > 0 ==> (r matches Ok(d) && relay_views(relays@).contains(d@)),
    {
        if relays.len() == 0 {
            return Err(DirectoryError::NoSuitableRelays);
        }
        let total = Self::total_bandwidth(relays);
        let draw = if total == 0 {
            random_below(relays.len() as u128)
        } else {
            random_below(total)
        };
        let d = Self::select_weighted_with(relays, draw);
        let ghost k = selected_index(relay_views(relays@), draw as nat);
        assert(relay_views(relays@)[k as int] == d@);
        Ok(d)
    }

    /// The relays of `relays` that a position draws from: those that suit it
    /// or, when none does, the running, valid relays that are no bad exits.
    pub fn candidates(relays: &Vec<RelayDescriptor>, hop: usize) -> (r: Vec<RelayDescriptor>)
        ensures
            relay_views(r@) == candidates(relay_views(relays@), hop as nat),
    {
        let ghost rs = relay_views(relays@);
        let mut suitable: Vec<RelayDescriptor> = Vec::new();
        let mut fallback: Vec<RelayDescriptor> = Vec::new();
        let mut i: usize = 0;
        while i < relays.len()
            invariant
                i <= relays@.len(),
                rs == relay_views(relays@),
                relay_views(suitable@) == keep_suitable(rs.subrange(0, i as int), hop as nat),
                relay_views(fallback@) == keep_fallback(rs.subrange(0, i as int)),
            decreases relays@.len() - i,
        {
            let ghost prefix = rs.subrange(0, i + 1);
            assert(prefix.drop_last() =~= rs.subrange(0, i as int));
            assert(prefix.last() == relays@[i as int]@);
            let r = &relays[i];
            if Self::is_relay_suitable(r, hop) {
                let c = r.copy();
                suitable.push(c);
                assert(relay_views(suitable@) =~= keep_suitable(prefix, hop as nat));
            }
            if has_flag(&r.flags, &RelayFlag::Running) && has_flag(&r.flags, &RelayFlag::Valid)
                && !has_flag(&r.flags, &RelayFlag::BadExit) {
                let c = r.copy();
                fallback.push(c);
                assert(relay_views(fallback@) =~= keep_fallback(prefix));
            }
            i += 1;
        }
        assert(rs.subrange(0, relays@.len() as int) =~= rs);
        if suitable.len() > 0 {
            suitable
        } else {
            fallback
        }
    }

    /// A relay for position `hop` from the held consensus, drawn by bandwidth
    /// among the suitable relays, or among the relaxed set when none suits.
    /// Without a consensus, or when both sets are empty, there is none.
    pub fn select_relay(&self, hop: usize) -> (r: Result<RelayDescriptor, DirectoryError>)
        ensures
            match self.held_relays() {
                None => r matches Err(DirectoryError::NoSuitableRelays),
                Some(rs) => {
                    let cs = candidates(rs, hop as nat);
                    &&& cs.len() == 0 ==> (r matches Err(DirectoryError::NoSuitableRelays))
                    &&& cs.len() > 0 ==> (r matches Ok(d) && cs.contains(d@))
                },
            },
    {
        match &self.consensus {
            None => Err(DirectoryError::NoSuitableRelays),
            Some(c) => {
                let cs = Self::candidates(&c.relays, hop);
                Self::select_weighted(&cs)
            },
        }
    }
}

pub proof fn lemma_keep_suitable_members(rs: Seq<RelayView>, hop: nat, d: RelayView)
    requires
        keep_suitable(rs, hop).contains(d),
    ensures
        suitable(d, hop),
        rs.contains(d),
    decreases rs.len(),
{
    if rs.len() > 0 {
        let p = keep_suitable(rs.drop_last(), hop);
        if p.contains(d) {
            lemma_keep_suitable_members(rs.drop_last(), hop, d);
            let k = choose|k: int| 0 <= k < rs.drop_last().len() && rs.drop_last()[k] == d;
            assert(rs[k] == d);
        } else {
            assert(d == rs.last());
            assert(rs[rs.len() - 1] == d);
        }
    }
}

pub proof fn lemma_keep_fallback_members(rs: Seq<RelayView>, d: RelayView)
    requires
        keep_fallback(rs).contains(d),
    ensures
        fallback_ok(d),
        rs.contains(d),
    decreases rs.len(),
{
    if rs.len() > 0 {
        let p = keep_fallback(rs.drop_last());
        if p.contains(d) {
            lemma_keep_fallback_members(rs.drop_last(), d);
            let k = choose|k: int| 0 <= k < rs.drop_last().len() && rs.drop_last()[k] == d;
            assert(rs[k] == d);
        } else {
            assert(d == rs.last());
            assert(rs[rs.len() - 1] == d);
        }
    }
}

/// A relay drawn for a position is one of the consensus's relays; when any
/// relay suits the position, the one drawn suits it; otherwise it is
/// running, valid and no bad exit.
pub proof fn lemma_selected_relay_fits(rs: Seq<RelayView>, hop: nat, d: RelayView)
    requires
        candidates(rs, hop).contains(d),
    ensures
        rs.contains(d),
        keep_suitable(rs, hop).len() > 0 ==> suitable(d, hop),
        keep_suitable(rs, hop).len() == 0 ==> fallback_ok(d),
{
    if keep_suitable(rs, hop).len() > 0 {
        lemma_keep_suitable_members(rs, hop, d);
    } else {
        lemma_keep_fallback_members(rs, d);
    }
}

/// With exactly one suitable relay, selection has one outcome: that relay.
pub proof fn lemma_single_candidate(rs: Seq<RelayView>, hop: nat, d: RelayView)
    requires
        keep_suitable(rs, hop).len() == 1,
        candidates(rs, hop).contains(d),
    ensures
        d == keep_suitable(rs, hop)[0],
{
}

/// The bytes a flag word must be to name a known flag, else its text.
pub open spec fn flag_of_word(w: Seq<u8>) -> Option<FlagView> {
    if w == seq![69u8, 120u8, 105u8, 116u8] {
        Some(FlagView::Exit)
    } else     if w == seq![71u8, 117u8, 97u8, 114u8, 100u8] {
        Some(FlagView::Guard)
    } else     if w == seq![77u8, 105u8, 100u8, 100u8, 108u8, 101u8] {
        Some(FlagView::Middle)
    } else     if w == seq![70u8, 97u8, 115u8, 116u8] {
        Some(FlagView::Fast)
    } else     if w == seq![83u8, 116u8, 97u8, 98u8, 108u8, 101u8] {
        Some(FlagView::Stable)
    } else     if w == seq![82u8, 117u8, 110u8, 110u8, 105u8, 110u8, 103u8] {
        Some(FlagView::Running)
    } else     if w == seq![86u8, 97u8, 108u8, 105u8, 100u8] {
        Some(FlagView::Valid)
    } else     if w == seq![72u8, 83u8, 68u8, 105u8, 114u8] {
        Some(FlagView::HSDir)
    } else     if w == seq![86u8, 50u8, 68u8, 105u8, 114u8] {
        Some(FlagView::V2Dir)
    } else     if w == seq![65u8, 117u8, 116u8, 104u8, 111u8, 114u8, 105u8, 116u8, 121u8] {
        Some(FlagView::Authority)
    } else     if w == seq![66u8, 97u8, 100u8, 69u8, 120u8, 105u8, 116u8] {
        Some(FlagView::BadExit)
    } else if valid_utf8(w) {
        Some(FlagView::Unknown(decode_utf8(w)))
    } else {
        None
    }
}

/// The flags of a flag line's words after the first; none when a word is
/// not UTF-8.
pub open spec fn flags_of_words(ws: Seq<Seq<u8>>) -> Option<Seq<FlagView>>
    decreases ws.len(),
{
    if ws.len() == 0 {
        Some(Seq::<FlagView>::empty())
    } else {
        match (flags_of_words(ws.drop_last()), flag_of_word(ws.last())) {
            (Some(fs), Some(f)) => Some(fs.push(f)),
            _ => None,
        }
    }
}

/// The text "Bandwidth=".
pub open spec fn bandwidth_key() -> Seq<u8> {
    seq![66u8, 97u8, 110u8, 100u8, 119u8, 105u8, 100u8, 116u8, 104u8, 61u8]
}

/// The first word from index `k` on of the form `Bandwidth=<u32>`, read.
pub open spec fn bandwidth_from(ws: Seq<Seq<u8>>, k: int) -> Option<u32>
    decreases ws.len() - k,
{
    if k < 0 || k >= ws.len() {
        None
    } else {
        let w = ws[k];
        if w.len() >= 10 && w.subrange(0, 10) == bandwidth_key() && parse_unsigned(
            w.subrange(10, w.len() as int),
            u32::MAX as nat,
        ) is Some {
            Some(parse_unsigned(w.subrange(10, w.len() as int), u32::MAX as nat)->0 as u32)
        } else {
            bandwidth_from(ws, k + 1)
        }
    }
}

/// The bandwidth a line gives, looking at its words after the first.
pub open spec fn line_bandwidth(l: Seq<u8>) -> Option<u32> {
    bandwidth_from(words(l), 1)
}

/// Whether a line, trimmed, starts with `tag` and a space.
pub open spec fn is_tagged(l: Seq<u8>, tag: u8) -> bool {
    trim(l).len() >= 2 && trim(l)[0] == tag && trim(l)[1] == 32u8
}

/// A dotted-quad octet: one to three digits, no leading zero, at most 255.
pub open spec fn octet_ok(p: Seq<u8>) -> bool {
    1 <= p.len() <= 3 && all_digits(p) && (p.len() == 1 || p[0] != 48u8) && digits_value(p)
        <= 255
}

/// A dotted-quad IPv4 address, read.
pub open spec fn parse_ipv4(s: Seq<u8>) -> Option<Seq<u8>> {
    let ps = split_on(s, 46u8);
    if ps.len() == 4 && octet_ok(ps[0]) && octet_ok(ps[1]) && octet_ok(ps[2]) && octet_ok(ps[3]) {
        Some(
            seq![
                digits_value(ps[0]) as u8,
                digits_value(ps[1]) as u8,
                digits_value(ps[2]) as u8,
                digits_value(ps[3]) as u8,
            ],
        )
    } else {
        None
    }
}

/// Relies on base64's standard engine (`general_purpose::STANDARD.decode`):
/// the bytes that padded standard base64 text encodes, or none when the
/// text is not such base64. The result depends on the text alone.
pub uninterp spec fn base64_standard_decode(s: Seq<u8>) -> Option<Seq<u8>>;

/// Relies on base64's `general_purpose::STANDARD.decode`, its error dropped.
#[verifier::external_body]
fn decode_base64(s: &[u8]) -> (r: Option<Vec<u8>>)
    ensures
        match base64_standard_decode(s@) {
            Some(v) => r is Some && r->0@ == v,
            None => r is None,
        },
{
    base64::Engine::decode(&base64::engine::general_purpose::STANDARD, s).ok()
}

/// `-` and `_` of the URL-safe alphabet as their standard counterparts.
pub open spec fn to_standard_alphabet(b: u8) -> u8 {
    if b == 45u8 {
        43u8
    } else if b == 95u8 {
        47u8
    } else {
        b
    }
}

/// Unpadded base64 text in the standard alphabet, padded with `=` to a
/// multiple of four bytes.
pub open spec fn standard_base64(t: Seq<u8>) -> Seq<u8> {
    t.map_values(|b: u8| to_standard_alphabet(b)) + Seq::new(
        ((4 - t.len() % 4) % 4) as nat,
        |i: int| 61u8,
    )
}

/// The words after the first.
pub open spec fn after_first(ws: Seq<Seq<u8>>) -> Seq<Seq<u8>> {
    if ws.len() == 0 {
        ws
    } else {
        ws.drop_first()
    }
}

/// The flags a record has and the line after them: those of the following
/// `s` line, or Running and Valid when there is none.
pub open spec fn record_flags(lines: Seq<Seq<u8>>, i: int) -> (Option<Seq<FlagView>>, int) {
    if i + 1 < lines.len() && is_tagged(lines[i + 1], 115u8) {
        (flags_of_words(after_first(words(lines[i + 1]))), i + 2)
    } else {
        (Some(seq![FlagView::Running, FlagView::Valid]), i + 1)
    }
}

/// Bandwidth when no line gives one.
pub const DEFAULT_BANDWIDTH: u32 = 1000000;

/// The bandwidth of the first of the five lines from `j` on that gives one.
pub open spec fn record_bandwidth(lines: Seq<Seq<u8>>, j: int, k: int) -> u32
    decreases 5 - k,
{
    if k >= 5 {
        DEFAULT_BANDWIDTH
    } else if 0 <= j + k < lines.len() && line_bandwidth(lines[j + k]) is Some {
        line_bandwidth(lines[j + k])->0
    } else {
        record_bandwidth(lines, j, k + 1)
    }
}

/// The relay that the record at line `i` describes: an `r` line of nine
/// words (nickname, identity, digest, date, time, IPv4 address, OR port,
/// dir port), its flags and its bandwidth. None when a field is malformed
/// or the identity is not 20 bytes.
pub open spec fn parse_record(lines: Seq<Seq<u8>>, i: int) -> Option<RelayView> {
    let parts = words(lines[i]);
    if parts.len() != 9 || parts[0] != seq![114u8] {
        None
    } else {
        let or_port = parse_unsigned(parts[7], 65535);
        let dir_port = parse_unsigned(parts[8], 65535);
        let ip = parse_ipv4(parts[6]);
        let ident = base64_standard_decode(standard_base64(parts[2]));
        let fl = record_flags(lines, i);
        if or_port is None || dir_port is None || ip is None || ident is None || ident->0.len()
            != 20 || !valid_utf8(parts[1]) || !valid_utf8(parts[2]) || fl.0 is None {
            None
        } else {
            Some(
                RelayView {
                    id: decode_utf8(parts[2]),
                    nickname: decode_utf8(parts[1]),
                    address: (ip->0, or_port->0 as u16),
                    identity_key: ident->0,
                    onion_key: ident->0,
                    bandwidth: record_bandwidth(lines, fl.1, 0),
                    flags: fl.0->0,
                },
            )
        }
    }
}

/// `m` with `r` put in: in place of the relay with the same id, else last.
pub open spec fn insert_relay(m: Seq<RelayView>, r: RelayView) -> Seq<RelayView> {
    if exists|k: int| 0 <= k < m.len() && m[k].id == r.id {
        m.update(choose|k: int| 0 <= k < m.len() && m[k].id == r.id, r)
    } else {
        m.push(r)
    }
}

/// The relays of the records among the first `n` lines, keyed by id.
pub open spec fn relays_of_lines(lines: Seq<Seq<u8>>, n: int) -> Seq<RelayView>
    decreases n,
{
    if n <= 0 {
        Seq::<RelayView>::empty()
    } else {
        let p = relays_of_lines(lines, n - 1);
        if n - 1 < lines.len() && is_tagged(lines[n - 1], 114u8) && parse_record(lines, n - 1) is Some {
            insert_relay(p, parse_record(lines, n - 1)->0)
        } else {
            p
        }
    }
}

/// The relays that a consensus document lists.
pub open spec fn consensus_relays(text: Seq<u8>) -> Seq<RelayView> {
    relays_of_lines(split_on(text, 10u8), split_on(text, 10u8).len() as int)
}

pub open spec fn ids_unique(m: Seq<RelayView>) -> bool {
    forall|a: int, b: int| 0 <= a < m.len() && 0 <= b < m.len() && a != b ==> m[a].id != m[b].id
}

pub fn bytes_equal(a: &[u8], b: &[u8]) -> (r: bool)
    ensures
        r == (a@ == b@),
{
    if a.len() != b.len() {
        return false;
    }
    let mut i: usize = 0;
    while i < a.len()
        invariant
            i <= a@.len(),
            a@.len() == b@.len(),
            forall|k: int| 0 <= k < i ==> a@[k] == b@[k],
        decreases a@.len() - i,
    {
        if a[i] != b[i] {
            return false;
        }
        i += 1;
    }
    assert(a@ =~= b@);
    true
}

/// Whether a line, trimmed, starts with `tag` and a space.
pub fn line_tagged(l: &[u8], tag: u8) -> (r: bool)
    ensures
        r == is_tagged(l@, tag),
{
    let (s, e) = trim_bounds(l);
    e - s >= 2 && l[s] == tag && l[s + 1] == 32u8
}

fn flag_from_word(w: &[u8]) -> (r: Option<RelayFlag>)
    ensures
        match flag_of_word(w@) {
            Some(f) => r is Some && r->0@ == f,
            None => r is None,
        },
{
        if bytes_equal(w, &[69u8, 120u8, 105u8, 116u8]) {
            return Some(RelayFlag::Exit);
        }
        if bytes_equal(w, &[71u8, 117u8, 97u8, 114u8, 100u8]) {
            return Some(RelayFlag::Guard);
        }
        if bytes_equal(w, &[77u8, 105u8, 100u8, 100u8, 108u8, 101u8]) {
            return Some(RelayFlag::Middle);
        }
        if bytes_equal(w, &[70u8, 97u8, 115u8, 116u8]) {
            return Some(RelayFlag::Fast);
        }
        if bytes_equal(w, &[83u8, 116u8, 97u8, 98u8, 108u8, 101u8]) {
            return Some(RelayFlag::Stable);
        }
        if bytes_equal(w, &[82u8, 117u8, 110u8, 110u8, 105u8, 110u8, 103u8]) {
            return Some(RelayFlag::Running);
        }
        if bytes_equal(w, &[86u8, 97u8, 108u8, 105u8, 100u8]) {
            return Some(RelayFlag::Valid);
        }
        if bytes_equal(w, &[72u8, 83u8, 68u8, 105u8, 114u8]) {
            return Some(RelayFlag::HSDir);
        }
        if bytes_equal(w, &[86u8, 50u8, 68u8, 105u8, 114u8]) {
            return Some(RelayFlag::V2Dir);
        }
        if bytes_equal(w, &[65u8, 117u8, 116u8, 104u8, 111u8, 114u8, 105u8, 116u8, 121u8]) {
            return Some(RelayFlag::Authority);
        }
        if bytes_equal(w, &[66u8, 97u8, 100u8, 69u8, 120u8, 105u8, 116u8]) {
            return Some(RelayFlag::BadExit);
        }

        let mut owned: Vec<u8> = Vec::new();
        push_all(&mut owned, w);
        match utf8_string(owned) {
            Some(s) => Some(RelayFlag::Unknown(s)),
            None => None,
        }
}

fn flags_from_words(ws: &Vec<Vec<u8>>) -> (r: Option<Vec<RelayFlag>>)
    ensures
        match flags_of_words(after_first(views(ws@))) {
            Some(fs) => r is Some && flag_views(r->0@) == fs,
            None => r is None,
        },
{
    if ws.len() == 0 {
        let none: Vec<RelayFlag> = Vec::new();
        assert(flag_views(none@) =~= Seq::<FlagView>::empty());
        return Some(none);
    }
    let ghost rest = views(ws@).drop_first();
    let mut out: Vec<RelayFlag> = Vec::new();
    let mut i: usize = 1;
    while i < ws.len()
        invariant
            1 <= i <= ws@.len(),
            rest == views(ws@).drop_first(),
            flags_of_words(rest.subrange(0, i - 1)) == Some(flag_views(out@)),
        decreases ws@.len() - i,
    {
        assert(rest.subrange(0, i as int).drop_last() =~= rest.subrange(0, i - 1));
        assert(rest.subrange(0, i as int).last() == ws@[i as int]@);
        match flag_from_word(ws[i].as_slice()) {
            Some(f) => {
                out.push(f);
                assert(flag_views(out@) =~= flag_views(out@).drop_last().push(f@));
                assert(flag_views(out@).drop_last() =~= flag_views(out@.drop_last()));
            },
            None => {
                proof {
                    lemma_flags_none_stays(rest, i as int);
                }
                return None;
            },
        }
        i += 1;
    }
    assert(rest.subrange(0, ws@.len() - 1) =~= rest);
    Some(out)
}

pub proof fn lemma_flags_none_stays(ws: Seq<Seq<u8>>, i: int)
    requires
        1 <= i <= ws.len(),
        flags_of_words(ws.subrange(0, i)) is None,
    ensures
        flags_of_words(ws) is None,
    decreases ws.len() - i,
{
    if i < ws.len() {
        assert(ws.subrange(0, i + 1).drop_last() =~= ws.subrange(0, i));
        lemma_flags_none_stays(ws, i + 1);
    } else {
        assert(ws.subrange(0, i) =~= ws);
    }
}

fn bandwidth_of_words(ws: &Vec<Vec<u8>>) -> (r: Option<u32>)
    ensures
        r == bandwidth_from(views(ws@), 1),
{
    let mut k: usize = 1;
    while k < ws.len()
        invariant
            1 <= k,
            bandwidth_from(views(ws@), k as int) == bandwidth_from(views(ws@), 1),
        decreases ws@.len() - k,
    {
        let w = ws[k].as_slice();
        assert(views(ws@)[k as int] == w@);
        if w.len() >= 10 && bytes_equal(slice_range(w, 0, 10), &[66u8, 97u8, 110u8, 100u8, 119u8, 105u8, 100u8, 116u8, 104u8, 61u8]) {
            assert([66u8, 97u8, 110u8, 100u8, 119u8, 105u8, 100u8, 116u8, 104u8, 61u8]@ =~= bandwidth_key());
            let v = parse_decimal(slice_range(w, 10, w.len()), u32::MAX);
            if v.is_some() {
                return v;
            }
        }
        k += 1;
    }
    None
}

fn octet(p: &Vec<u8>) -> (r: Option<u8>)
    ensures
        octet_ok(p@) ==> r == Some(digits_value(p@) as u8),
        !octet_ok(p@) ==> r is None,
{
    if p.len() < 1 || p.len() > 3 {
        return None;
    }
    if p[0] < 48u8 || p[0] > 57u8 {
        return None;
    }
    if p.len() > 1 && p[0] == 48u8 {
        return None;
    }
    match parse_decimal(p.as_slice(), 255) {
        Some(v) => Some(v as u8),
        None => None,
    }
}

/// Reads a dotted-quad IPv4 address.
pub fn parse_ipv4_address(s: &[u8]) -> (r: Option<[u8; 4]>)
    ensures
        match parse_ipv4(s@) {
            Some(v) => r is Some && r->0@ == v,
            None => r is None,
        },
{
    let ps = split_bytes(s, 46u8);
    if ps.len() != 4 {
        return None;
    }
    assert(views(ps@)[0] == ps@[0]@ && views(ps@)[1] == ps@[1]@);
    assert(views(ps@)[2] == ps@[2]@ && views(ps@)[3] == ps@[3]@);
    let a = match octet(&ps[0]) {
        Some(v) => v,
        None => return None,
    };
    let b = match octet(&ps[1]) {
        Some(v) => v,
        None => return None,
    };
    let c = match octet(&ps[2]) {
        Some(v) => v,
        None => return None,
    };
    let d = match octet(&ps[3]) {
        Some(v) => v,
        None => return None,
    };
    let ip = [a, b, c, d];
    assert(ip@ =~= parse_ipv4(s@)->0);
    Some(ip)
}

/// Identity text made padded standard base64.
fn standard_base64_text(t: &[u8]) -> (r: Vec<u8>)
    ensures
        r@ == standard_base64(t@),
{
    let mut out: Vec<u8> = Vec::new();
    let mut i: usize = 0;
    while i < t.len()
        invariant
            i <= t@.len(),
            out@ == t@.subrange(0, i as int).map_values(|b: u8| to_standard_alphabet(b)),
        decreases t@.len() - i,
    {
        let b = t[i];
        let c = if b == 45u8 {
            43u8
        } else if b == 95u8 {
            47u8
        } else {
            b
        };
        out.push(c);
        i += 1;
        assert(out@ =~= t@.subrange(0, i as int).map_values(|b: u8| to_standard_alphabet(b)));
    }
    assert(t@.subrange(0, t@.len() as int) =~= t@);
    let ghost mapped = out@;
    let pad: usize = (4 - t.len() % 4) % 4;
    let mut k: usize = 0;
    while k < pad
        invariant
            k <= pad,
            out@ == mapped + Seq::new(k as nat, |j: int| 61u8),
        decreases pad - k,
    {
        out.push(61u8);
        k += 1;
        assert(out@ =~= mapped + Seq::new(k as nat, |j: int| 61u8));
    }
    out
}

fn record_bandwidth_of(lines: &Vec<Vec<u8>>, j: usize) -> (r: u32)
    ensures
        r == record_bandwidth(views(lines@), j as int, 0),
{
    let mut k: usize = 0;
    while k < 5
        invariant
            k <= 5,
            record_bandwidth(views(lines@), j as int, k as int) == record_bandwidth(
                views(lines@),
                j as int,
                0,
            ),
        decreases 5 - k,
    {
        if j < lines.len() && k < lines.len() - j {
            let ws = split_words(lines[j + k].as_slice());
            assert(views(lines@)[j + k] == lines@[j + k]@);
            let bw = bandwidth_of_words(&ws);
            if let Some(v) = bw {
                return v;
            }
        }
        k += 1;
    }
    DEFAULT_BANDWIDTH
}

fn owned_bytes(w: &Vec<u8>) -> (r: Vec<u8>)
    ensures
        r@ == w@,
{
    let mut out: Vec<u8> = Vec::new();
    push_all(&mut out, w.as_slice());
    out
}

impl DirectoryClient {
    /// Reads the relay record whose `r` line is line `i`, with its `s` line
    /// and the bandwidth of the five lines after the flags.
    pub fn parse_relay(lines: &Vec<Vec<u8>>, i: usize) -> (r: Result<RelayDescriptor, DirectoryError>)
        requires
            i < lines@.len(),
        ensures
            match parse_record(views(lines@), i as int) {
                Some(v) => r is Ok && r->Ok_0@ == v,
                None => r matches Err(DirectoryError::ParseError(_)),
            },
    {
        let ghost ls = views(lines@);
        assert(ls[i as int] == lines@[i as int]@);
        let parts = split_words(lines[i].as_slice());
        if parts.len() != 9 || !bytes_equal(parts[0].as_slice(), &[114u8]) {
            proof {
                assert([114u8]@ =~= seq![114u8]);
            }
            return Err(DirectoryError::ParseError("Invalid r line".to_string()));
        }
        assert([114u8]@ =~= seq![114u8]);
        let ghost pv = views(parts@);
        assert(forall|k: int| 0 <= k < 9 ==> pv[k] == (#[trigger] parts@[k])@);
        let or_port = match parse_decimal(parts[7].as_slice(), 65535) {
            Some(v) => v as u16,
            None => return Err(DirectoryError::ParseError("Invalid OR port".to_string())),
        };
        if parse_decimal(parts[8].as_slice(), 65535).is_none() {
            return Err(DirectoryError::ParseError("Invalid Dir port".to_string()));
        }
        let ip = match parse_ipv4_address(parts[6].as_slice()) {
            Some(v) => v,
            None => return Err(DirectoryError::ParseError("Invalid address".to_string())),
        };
        let identity_text = standard_base64_text(parts[2].as_slice());
        let identity_key = match decode_base64(identity_text.as_slice()) {
            Some(v) => v,
            None => return Err(DirectoryError::ParseError("Invalid identity base64".to_string())),
        };
        if identity_key.len() != 20 {
            return Err(DirectoryError::ParseError("Identity key wrong length".to_string()));
        }
        let nickname = match utf8_string(owned_bytes(&parts[1])) {
            Some(v) => v,
            None => return Err(DirectoryError::ParseError("Invalid nickname".to_string())),
        };
        let id = match utf8_string(owned_bytes(&parts[2])) {
            Some(v) => v,
            None => return Err(DirectoryError::ParseError("Invalid identity".to_string())),
        };
        let mut flags: Vec<RelayFlag> = Vec::new();
        flags.push(RelayFlag::Running);
        flags.push(RelayFlag::Valid);
        let n = lines.len();
        let mut j: usize = i + 1;
        if j < n && line_tagged(lines[j].as_slice(), 115u8) {
            assert(ls[j as int] == lines@[j as int]@);
            let ws = split_words(lines[j].as_slice());
            flags = match flags_from_words(&ws) {
                Some(f) => f,
                None => return Err(DirectoryError::ParseError("Invalid flag".to_string())),
            };
            j = j + 1;
        } else {
            assert(flag_views(flags@) =~= seq![FlagView::Running, FlagView::Valid]);
        }
        let bandwidth = record_bandwidth_of(lines, j);
        let onion_key = copy_bytes(&identity_key);
        Ok(
            RelayDescriptor {
                id,
                nickname,
                address: OrAddress { ip, port: or_port },
                identity_key,
                onion_key,
                bandwidth,
                flags,
            },
        )
    }
}

/// What the insertion leaves: the relays that were there, or the new one.
pub proof fn lemma_insert_members(m: Seq<RelayView>, r: RelayView)
    ensures
        forall|k: int|
            0 <= k < insert_relay(m, r).len() ==> m.contains(#[trigger] insert_relay(m, r)[k])
                || insert_relay(m, r)[k] == r,
        ids_unique(m) ==> ids_unique(insert_relay(m, r)),
        insert_relay(m, r).len() >= 1,
        insert_relay(m, r).len() >= m.len(),
{
    if exists|k: int| 0 <= k < m.len() && m[k].id == r.id {
        let c = choose|k: int| 0 <= k < m.len() && m[k].id == r.id;
        let n = m.update(c, r);
        assert forall|k: int| 0 <= k < n.len() implies m.contains(#[trigger] n[k]) || n[k] == r by {
            if k != c {
                assert(m[k] == n[k]);
            }
        }
    } else {
        let n = m.push(r);
        assert forall|k: int| 0 <= k < n.len() implies m.contains(#[trigger] n[k]) || n[k] == r by {
            if k < m.len() {
                assert(m[k] == n[k]);
            }
        }
    }
}

fn insert_relay_into(relays: &mut Vec<RelayDescriptor>, r: RelayDescriptor)
    requires
        ids_unique(relay_views(old(relays)@)),
    ensures
        relay_views(final(relays)@) == insert_relay(relay_views(old(relays)@), r@),
        ids_unique(relay_views(final(relays)@)),
{
    let ghost m = relay_views(relays@);
    proof {
        lemma_insert_members(m, r@);
    }
    let mut k: usize = 0;
    while k < relays.len()
        invariant
            k <= relays@.len(),
            relays@ == old(relays)@,
            m == relay_views(relays@),
            ids_unique(m),
            forall|q: int| 0 <= q < k ==> m[q].id != r@.id,
        decreases relays@.len() - k,
    {
        if relays[k].id == r.id {
            assert(m[k as int].id == r@.id);
            let ghost c = choose|q: int| 0 <= q < m.len() && m[q].id == r@.id;
            assert(c == k);
            relays.set(k, r);
            assert(relay_views(relays@) =~= m.update(k as int, r@));
            return ;
        }
        k += 1;
    }
    relays.push(r);
    assert(relay_views(relays@) =~= m.push(r@));
}

impl NetworkConsensus {
    /// A consensus is usable when it lists at least one relay and no two of
    /// its relays share an id.
    pub open spec fn wf(&self) -> bool {
        relay_views(self.relays@).len() > 0 && ids_unique(relay_views(self.relays@))
    }
}

/// An hour after `t`, or the last instant when that is past it.
pub open spec fn hour_after(t: u64) -> u64 {
    if t <= u64::MAX - FRESHNESS_SECS {
        (t + FRESHNESS_SECS) as u64
    } else {
        u64::MAX
    }
}

/// How long an installed consensus is served without a refresh, in seconds.
pub const FRESHNESS_SECS: u64 = 3600;

impl DirectoryClient {
    /// Reads a consensus document: every `r` line that opens a well-formed
    /// record adds its relay, a later record replacing an earlier one with the
    /// same id. With no relay the document is refused. The validity window is
    /// informational: an hour from `now`.
    pub fn parse_consensus(text: &str, now: u64) -> (r: Result<NetworkConsensus, DirectoryError>)
        ensures
            consensus_relays(text.spec_bytes()).len() == 0 ==> (r matches Err(
                DirectoryError::InvalidConsensus(_),
            )),
            consensus_relays(text.spec_bytes()).len() > 0 ==> (r matches Ok(c) && relay_views(
                c.relays@,
            ) == consensus_relays(text.spec_bytes()) && c.wf() && c.valid_after == now
                && c.valid_until == hour_after(now)),
    {
        let bytes = text.as_bytes();
        let lines = split_bytes(bytes, 10u8);
        let ghost ls = views(lines@);
        let mut relays: Vec<RelayDescriptor> = Vec::new();
        let mut i: usize = 0;
        while i < lines.len()
            invariant
                i <= lines@.len(),
                ls == views(lines@),
                ls == split_on(text.spec_bytes(), 10u8),
                relay_views(relays@) == relays_of_lines(ls, i as int),
                ids_unique(relay_views(relays@)),
            decreases lines@.len() - i,
        {
            assert(ls[i as int] == lines@[i as int]@);
            if line_tagged(lines[i].as_slice(), 114u8) {
                match Self::parse_relay(&lines, i) {
                    Ok(relay) => {
                        insert_relay_into(&mut relays, relay);
                    },
                    Err(_) => {},
                }
            }
            i += 1;
        }
        if relays.len() == 0 {
            return Err(DirectoryError::InvalidConsensus("No relays found".to_string()));
        }
        let valid_until = if now <= u64::MAX - FRESHNESS_SECS {
            now + FRESHNESS_SECS
        } else {
            u64::MAX
        };
        Ok(NetworkConsensus { valid_after: now, valid_until, relays, signatures: Vec::new() })
    }
}

pub proof fn lemma_relays_of_lines_wf(lines: Seq<Seq<u8>>, n: int)
    ensures
        ids_unique(relays_of_lines(lines, n)),
        forall|k: int|
            0 <= k < relays_of_lines(lines, n).len() ==> (#[trigger] relays_of_lines(
                lines,
                n,
            )[k]).identity_key.len() == 20,
    decreases n,
{
    if n > 0 {
        lemma_relays_of_lines_wf(lines, n - 1);
        let p = relays_of_lines(lines, n - 1);
        if n - 1 < lines.len() && is_tagged(lines[n - 1], 114u8) && parse_record(lines, n - 1) is Some {
            let r = parse_record(lines, n - 1)->0;
            lemma_insert_members(p, r);
            let q = insert_relay(p, r);
            assert forall|k: int| 0 <= k < q.len() implies (#[trigger] q[k]).identity_key.len()
                == 20 by {
                if p.contains(q[k]) {
                    let j = choose|j: int| 0 <= j < p.len() && p[j] == q[k];
                    assert(p[j].identity_key.len() == 20);
                }
            }
        }
    }
}

/// Every relay a consensus document yields has a 20-byte identity, and no
/// two share an id; a document that is accepted yields at least one relay.
pub proof fn lemma_parsed_consensus_well_formed(text: Seq<u8>)
    ensures
        ids_unique(consensus_relays(text)),
        forall|k: int|
            0 <= k < consensus_relays(text).len() ==> (#[trigger] consensus_relays(
                text,
            )[k]).identity_key.len() == 20,
{
    lemma_relays_of_lines_wf(split_on(text, 10u8), split_on(text, 10u8).len() as int);
}

/// Bytes that are all zero.
pub fn zero_bytes(n: usize) -> (r: Vec<u8>)
    ensures
        r@ == Seq::new(n as nat, |i: int| 0u8),
{
    let mut out: Vec<u8> = Vec::with_capacity(n);
    let mut i: usize = 0;
    while i < n
        invariant
            i <= n,
            out@ == Seq::new(i as nat, |k: int| 0u8),
        decreases n - i,
    {
        out.push(0u8);
        i += 1;
        assert(out@ =~= Seq::new(i as nat, |k: int| 0u8));
    }
    out
}

/// A relay of the built-in test network: 192.168.1.`host`:9001, zero keys.
pub open spec fn mock_view(
    id: Seq<char>,
    nickname: Seq<char>,
    host: u8,
    flags: Seq<FlagView>,
    bandwidth: u32,
) -> RelayView {
    RelayView {
        id,
        nickname,
        address: (seq![192u8, 168u8, 1u8, host], 9001u16),
        identity_key: Seq::new(20, |i: int| 0u8),
        onion_key: Seq::new(32, |i: int| 0u8),
        bandwidth,
        flags,
    }
}

/// The ten relays of the built-in test network: three guards, three middles,
/// three exits and one that is only fast, running and valid.
pub open spec fn mock_relays() -> Seq<RelayView> {
    seq![
        mock_view("mock-Guard1"@, "Guard1"@, 1u8, seq![FlagView::Guard, FlagView::Fast, FlagView::Running, FlagView::Valid], 1000000),
        mock_view("mock-Middle1"@, "Middle1"@, 2u8, seq![FlagView::Fast, FlagView::Stable, FlagView::Running, FlagView::Valid], 2000000),
        mock_view("mock-Exit1"@, "Exit1"@, 3u8, seq![FlagView::Exit, FlagView::Fast, FlagView::Running, FlagView::Valid], 3000000),
        mock_view("mock-Guard2"@, "Guard2"@, 4u8, seq![FlagView::Guard, FlagView::Fast, FlagView::Running, FlagView::Valid], 1500000),
        mock_view("mock-Middle2"@, "Middle2"@, 5u8, seq![FlagView::Fast, FlagView::Stable, FlagView::Running, FlagView::Valid], 2500000),
        mock_view("mock-Exit2"@, "Exit2"@, 6u8, seq![FlagView::Exit, FlagView::Fast, FlagView::Running, FlagView::Valid], 3500000),
        mock_view("mock-Guard3"@, "Guard3"@, 7u8, seq![FlagView::Guard, FlagView::Fast, FlagView::Running, FlagView::Valid], 1200000),
        mock_view("mock-Middle3"@, "Middle3"@, 8u8, seq![FlagView::Fast, FlagView::Stable, FlagView::Running, FlagView::Valid], 2200000),
        mock_view("mock-Exit3"@, "Exit3"@, 9u8, seq![FlagView::Exit, FlagView::Fast, FlagView::Running, FlagView::Valid], 3200000),
        mock_view("mock-Fallback"@, "Fallback"@, 10u8, seq![FlagView::Fast, FlagView::Running, FlagView::Valid], 1000000),
    ]
}

/// `m` with each of `rs` put in, in order.
pub open spec fn insert_all(m: Seq<RelayView>, rs: Seq<RelayView>) -> Seq<RelayView>
    decreases rs.len(),
{
    if rs.len() == 0 {
        m
    } else {
        insert_all(insert_relay(m, rs[0]), rs.drop_first())
    }
}

fn flags3(a: RelayFlag, b: RelayFlag, c: RelayFlag) -> (r: Vec<RelayFlag>)
    ensures
        flag_views(r@) == seq![a@, b@, c@],
{
    let mut out: Vec<RelayFlag> = Vec::new();
    out.push(a);
    out.push(b);
    out.push(c);
    assert(flag_views(out@) =~= seq![a@, b@, c@]);
    out
}

fn flags4(a: RelayFlag, b: RelayFlag, c: RelayFlag, d: RelayFlag) -> (r: Vec<RelayFlag>)
    ensures
        flag_views(r@) == seq![a@, b@, c@, d@],
{
    let mut out = flags3(a, b, c);
    let ghost before = out@;
    out.push(d);
    assert(flag_views(out@) =~= flag_views(before).push(d@));
    out
}

fn mock_relay(id: &str, nickname: &str, host: u8, flags: Vec<RelayFlag>, bandwidth: u32) -> (r:
    RelayDescriptor)
    ensures
        r@ == mock_view(id@, nickname@, host, flag_views(flags@), bandwidth),
{
    RelayDescriptor {
        id: id.to_string(),
        nickname: nickname.to_string(),
        address: OrAddress { ip: [192u8, 168u8, 1u8, host], port: 9001u16 },
        identity_key: zero_bytes(20),
        onion_key: zero_bytes(32),
        bandwidth,
        flags,
    }
}

/// Start of the archive's URLs of hourly consensus documents.
pub open spec fn archive_base() -> Seq<u8> {
    seq![104u8, 116u8, 116u8, 112u8, 115u8, 58u8, 47u8, 47u8, 99u8, 111u8, 108u8, 108u8, 101u8, 99u8, 116u8, 111u8, 114u8, 46u8, 116u8, 111u8, 114u8, 112u8, 114u8, 111u8, 106u8, 101u8, 99u8, 116u8, 46u8, 111u8, 114u8, 103u8, 47u8, 114u8, 101u8, 99u8, 101u8, 110u8, 116u8, 47u8, 114u8, 101u8, 108u8, 97u8, 121u8, 45u8, 100u8, 101u8, 115u8, 99u8, 114u8, 105u8, 112u8, 116u8, 111u8, 114u8, 115u8, 47u8, 99u8, 111u8, 110u8, 115u8, 101u8, 110u8, 115u8, 117u8, 115u8, 101u8, 115u8, 47u8]
}

/// End of the archive's URLs of hourly consensus documents.
pub open spec fn archive_tail() -> Seq<u8> {
    seq![45u8, 48u8, 48u8, 45u8, 48u8, 48u8, 45u8, 99u8, 111u8, 110u8, 115u8, 101u8, 110u8, 115u8, 117u8, 115u8]
}

/// The archive's URL of the consensus of the given UTC hour.
pub open spec fn archive_url_bytes(year: nat, month: nat, day: nat, hour: nat) -> Seq<u8> {
    archive_base() + decimal_padded(year, 4) + seq![45u8] + decimal_padded(month, 2) + seq![45u8]
        + decimal_padded(day, 2) + seq![45u8] + decimal_padded(hour, 2) + archive_tail()
}

pub open spec fn fields_year(f: (i32, u32, u32, u32)) -> i32 {
    f.0
}

/// The archive's URL for a (year, month, day, hour).
pub open spec fn url_of_fields(f: (i32, u32, u32, u32)) -> Seq<u8> {
    archive_url_bytes(f.0 as nat, f.1 as nat, f.2 as nat, f.3 as nat)
}

/// How many hours back the archive is searched.
pub const ARCHIVE_HOURS: u32 = 48;

/// The archive walk: after a failed attempt at `hour_offset` hours back,
/// the next offset to try, or none when the walk has covered its hours.
pub fn next_archive_offset(hour_offset: u32) -> (r: Option<u32>)
    ensures
        hour_offset + 1 < ARCHIVE_HOURS ==> r == Some((hour_offset + 1) as u32),
        hour_offset + 1 >= ARCHIVE_HOURS ==> r is None,
{
    if hour_offset < ARCHIVE_HOURS - 1 {
        Some(hour_offset + 1)
    } else {
        None
    }
}

/// Relies on chrono's `DateTime::from_timestamp` and its `year`, `month`,
/// `day`, `hour` accessors: the UTC calendar date and hour of an instant
/// given in seconds since the Unix epoch, or none out of chrono's range. The
/// result depends on the instant alone.
pub uninterp spec fn utc_date_hour_of(secs: int) -> Option<(i32, u32, u32, u32)>;

/// Relies on chrono's `DateTime::from_timestamp` (whole seconds) and the
/// `Datelike` / `Timelike` accessors of its result.
#[verifier::external_body]
fn utc_date_hour(secs: i64) -> (r: Option<(i32, u32, u32, u32)>)
    ensures
        r == utc_date_hour_of(secs as int),
        r matches Some(t) ==> 1 <= t.1 <= 12 && 1 <= t.2 <= 31 && t.3 < 24,
{
    match chrono::DateTime::from_timestamp(secs, 0) {
        Some(t) => Some((t.year(), t.month(), t.day(), t.hour())),
        None => None,
    }
}

fn push_bytes(out: &mut Vec<u8>, b: &[u8])
    ensures
        final(out)@ == old(out)@ + b@,
{
    push_all(out, b);
}

impl DirectoryClient {
    /// The moment the held consensus was installed.
    pub closed spec fn installed_at(&self) -> u64 {
        self.last_update
    }

    /// Whether consensus documents come from the network, not the built-in
    /// test network.
    pub closed spec fn fetches_from_network(&self) -> bool {
        self.use_real_consensus
    }

    /// The consensus held is either absent or usable.
    pub closed spec fn wf(&self) -> bool {
        match self.consensus {
            None => true,
            Some(c) => c.wf(),
        }
    }

    /// A directory that fetches from the network and holds nothing yet.
    pub fn new(_authorities: Vec<String>) -> (r: Self)
        ensures
            r.held_relays() is None,
            r.held_window() is None,
            r.installed_at() == 0,
            r.fetches_from_network(),
            r.wf(),
    {
        DirectoryClient { consensus: None, last_update: 0, use_real_consensus: true }
    }

    /// A directory serving the built-in test network, holding nothing yet.
    pub fn new_mock() -> (r: Self)
        ensures
            r.held_relays() is None,
            r.held_window() is None,
            r.installed_at() == 0,
            !r.fetches_from_network(),
            r.wf(),
    {
        DirectoryClient { consensus: None, last_update: 0, use_real_consensus: false }
    }

    /// Whether the held consensus was installed less than an hour before `now`.
    pub fn is_consensus_fresh(&self, now: u64) -> (r: bool)
        ensures
            r == (self.installed_at() <= now && now - self.installed_at() < FRESHNESS_SECS),
    {
        self.last_update <= now && now - self.last_update < FRESHNESS_SECS
    }

    /// The built-in test network as a consensus valid for an hour from `now`.
    pub fn create_mock_consensus(now: u64) -> (r: NetworkConsensus)
        ensures
            relay_views(r.relays@) == insert_all(Seq::<RelayView>::empty(), mock_relays()),
            r.wf(),
            r.valid_after == now,
            r.valid_until == hour_after(now),
    {
        let mut list: Vec<RelayDescriptor> = Vec::new();
        list.push(mock_relay("mock-Guard1", "Guard1", 1u8, flags4(RelayFlag::Guard, RelayFlag::Fast, RelayFlag::Running, RelayFlag::Valid), 1000000));
        list.push(mock_relay("mock-Middle1", "Middle1", 2u8, flags4(RelayFlag::Fast, RelayFlag::Stable, RelayFlag::Running, RelayFlag::Valid), 2000000));
        list.push(mock_relay("mock-Exit1", "Exit1", 3u8, flags4(RelayFlag::Exit, RelayFlag::Fast, RelayFlag::Running, RelayFlag::Valid), 3000000));
        list.push(mock_relay("mock-Guard2", "Guard2", 4u8, flags4(RelayFlag::Guard, RelayFlag::Fast, RelayFlag::Running, RelayFlag::Valid), 1500000));
        list.push(mock_relay("mock-Middle2", "Middle2", 5u8, flags4(RelayFlag::Fast, RelayFlag::Stable, RelayFlag::Running, RelayFlag::Valid), 2500000));
        list.push(mock_relay("mock-Exit2", "Exit2", 6u8, flags4(RelayFlag::Exit, RelayFlag::Fast, RelayFlag::Running, RelayFlag::Valid), 3500000));
        list.push(mock_relay("mock-Guard3", "Guard3", 7u8, flags4(RelayFlag::Guard, RelayFlag::Fast, RelayFlag::Running, RelayFlag::Valid), 1200000));
        list.push(mock_relay("mock-Middle3", "Middle3", 8u8, flags4(RelayFlag::Fast, RelayFlag::Stable, RelayFlag::Running, RelayFlag::Valid), 2200000));
        list.push(mock_relay("mock-Exit3", "Exit3", 9u8, flags4(RelayFlag::Exit, RelayFlag::Fast, RelayFlag::Running, RelayFlag::Valid), 3200000));
        list.push(mock_relay("mock-Fallback", "Fallback", 10u8, flags3(RelayFlag::Fast, RelayFlag::Running, RelayFlag::Valid), 1000000));
        assert(relay_views(list@) =~= mock_relays());
        let ghost all = relay_views(list@);
        assert(all.subrange(0, 10) =~= all);
        let mut relays: Vec<RelayDescriptor> = Vec::new();
        assert(relay_views(relays@) =~= Seq::<RelayView>::empty());
        let mut i: usize = 0;
        while i < list.len()
            invariant
                i <= list@.len(),
                all == relay_views(list@),
                all.len() == 10,
                insert_all(relay_views(relays@), all.subrange(i as int, 10)) == insert_all(
                    Seq::<RelayView>::empty(),
                    all,
                ),
                ids_unique(relay_views(relays@)),
                i > 0 ==> relay_views(relays@).len() > 0,
            decreases list@.len() - i,
        {
            let ghost before = relay_views(relays@);
            assert(all.subrange(i as int, 10).drop_first() =~= all.subrange(i + 1, 10));
            assert(all.subrange(i as int, 10)[0] == list@[i as int]@);
            proof {
                lemma_insert_members(before, list@[i as int]@);
            }
            let r = list[i].copy();
            insert_relay_into(&mut relays, r);
            i += 1;
        }
        assert(all.subrange(0, 10) =~= all);
        assert(all.subrange(10, 10) =~= Seq::<RelayView>::empty());
        let valid_until = if now <= u64::MAX - FRESHNESS_SECS {
            now + FRESHNESS_SECS
        } else {
            u64::MAX
        };
        NetworkConsensus { valid_after: now, valid_until, relays, signatures: Vec::new() }
    }

    /// Holds `consensus` from `now` on.
    pub fn install_consensus(&mut self, consensus: NetworkConsensus, now: u64)
        requires
            consensus.wf(),
        ensures
            final(self).held_relays() == Some(relay_views(consensus.relays@)),
            final(self).held_window() == Some((consensus.valid_after, consensus.valid_until)),
            final(self).installed_at() == now,
            final(self).fetches_from_network() == old(self).fetches_from_network(),
            final(self).wf(),
    {
        self.consensus = Some(consensus);
        self.last_update = now;
    }

    /// The consensus to use at `now` when no download is needed: the held one
    /// while it is fresh; else, for the test network, a new one, installed.
    /// None means the caller must download a document and install it.
    pub fn fetch_consensus(&mut self, now: u64) -> (r: Option<NetworkConsensus>)
        requires
            old(self).wf(),
        ensures
            final(self).wf(),
            final(self).fetches_from_network() == old(self).fetches_from_network(),
            r matches Some(c) ==> c.wf() && final(self).held_relays() == Some(
                relay_views(c.relays@),
            ) && final(self).held_window() == Some((c.valid_after, c.valid_until)),
            ({
                let fresh = old(self).installed_at() <= now && now - old(self).installed_at()
                    < FRESHNESS_SECS;
                if fresh && old(self).held_relays() is Some {
                    &&& r is Some
                    &&& final(self).held_relays() == old(self).held_relays()
                    &&& final(self).held_window() == old(self).held_window()
                    &&& final(self).installed_at() == old(self).installed_at()
                } else if !old(self).fetches_from_network() {
                    &&& r is Some
                    &&& final(self).held_relays() == Some(
                        insert_all(Seq::<RelayView>::empty(), mock_relays()),
                    )
                    &&& final(self).installed_at() == now
                    &&& r matches Some(c) && c.valid_after == now && c.valid_until == hour_after(now)
                } else {
                    &&& r is None
                    &&& final(self).held_relays() == old(self).held_relays()
                    &&& final(self).installed_at() == old(self).installed_at()
                }
            }),
    {
        if self.is_consensus_fresh(now) {
            match &self.consensus {
                Some(c) => {
                    return Some(c.copy());
                },
                None => {},
            }
        }
        if self.use_real_consensus {
            return None;
        }
        let mock = Self::create_mock_consensus(now);
        let held = mock.copy();
        self.install_consensus(held, now);
        Some(mock)
    }

    /// Whether a download may be read: a 2xx status and a non-empty body.
    /// Such a body is then parsed; a refused one counts as a failed attempt.
    pub fn accept_response(status: u16, body: &str, now: u64) -> (r: Result<
        NetworkConsensus,
        DirectoryError,
    >)
        ensures
            !(200 <= status < 300) ==> (r matches Err(DirectoryError::RequestFailed(_))),
            200 <= status < 300 && body@.len() == 0 ==> (r matches Err(
                DirectoryError::RequestFailed(_),
            )),
            200 <= status < 300 && body@.len() > 0 ==> match r {
                Ok(c) => c.wf() && relay_views(c.relays@) == consensus_relays(body.spec_bytes()),
                Err(e) => e is InvalidConsensus && consensus_relays(body.spec_bytes()).len() == 0,
            },
    {
        if status < 200 || status >= 300 {
            return Err(DirectoryError::RequestFailed("Status is not a success".to_string()));
        }
        if body.is_empty() {
            return Err(DirectoryError::RequestFailed("Empty body".to_string()));
        }
        Self::parse_consensus(body, now)
    }

    /// The archive's URL of the consensus published `hour_offset` hours
    /// before `now` (seconds since the Unix epoch), by UTC hour; none when
    /// that hour lies outside the calendar's range.
    pub fn archive_url(now: i64, hour_offset: u32) -> (r: Option<String>)
        ensures
            ({
                let t = now - hour_offset * 3600;
                let f = utc_date_hour_of(t);
                if i64::MIN <= t && f is Some && fields_year(f->0) >= 0 {
                    r is Some && r->0@ == ascii_chars(url_of_fields(f->0))
                } else {
                    r is None
                }
            }),
    {
        let back: i64 = hour_offset as i64 * 3600;
        if now < i64::MIN + back {
            return None;
        }
        let fields = match utc_date_hour(now - back) {
            Some(f) => f,
            None => return None,
        };
        let (year, month, day, hour) = fields;
        if year < 0 {
            return None;
        }
        let mut out: Vec<u8> = Vec::new();
        push_bytes(&mut out, &[104u8, 116u8, 116u8, 112u8, 115u8, 58u8, 47u8, 47u8, 99u8, 111u8, 108u8, 108u8, 101u8, 99u8, 116u8, 111u8, 114u8, 46u8, 116u8, 111u8, 114u8, 112u8, 114u8, 111u8, 106u8, 101u8, 99u8, 116u8, 46u8, 111u8, 114u8, 103u8, 47u8, 114u8, 101u8, 99u8, 101u8, 110u8, 116u8, 47u8, 114u8, 101u8, 108u8, 97u8, 121u8, 45u8, 100u8, 101u8, 115u8, 99u8, 114u8, 105u8, 112u8, 116u8, 111u8, 114u8, 115u8, 47u8, 99u8, 111u8, 110u8, 115u8, 101u8, 110u8, 115u8, 117u8, 115u8, 101u8, 115u8, 47u8]);
        assert([104u8, 116u8, 116u8, 112u8, 115u8, 58u8, 47u8, 47u8, 99u8, 111u8, 108u8, 108u8, 101u8, 99u8, 116u8, 111u8, 114u8, 46u8, 116u8, 111u8, 114u8, 112u8, 114u8, 111u8, 106u8, 101u8, 99u8, 116u8, 46u8, 111u8, 114u8, 103u8, 47u8, 114u8, 101u8, 99u8, 101u8, 110u8, 116u8, 47u8, 114u8, 101u8, 108u8, 97u8, 121u8, 45u8, 100u8, 101u8, 115u8, 99u8, 114u8, 105u8, 112u8, 116u8, 111u8, 114u8, 115u8, 47u8, 99u8, 111u8, 110u8, 115u8, 101u8, 110u8, 115u8, 117u8, 115u8, 101u8, 115u8, 47u8]@ =~= archive_base());
        push_decimal_padded(&mut out, year as u64, 4);
        out.push(45u8);
        push_decimal_padded(&mut out, month as u64, 2);
        out.push(45u8);
        push_decimal_padded(&mut out, day as u64, 2);
        out.push(45u8);
        push_decimal_padded(&mut out, hour as u64, 2);
        push_bytes(&mut out, &[45u8, 48u8, 48u8, 45u8, 48u8, 48u8, 45u8, 99u8, 111u8, 110u8, 115u8, 101u8, 110u8, 115u8, 117u8, 115u8]);
        assert([45u8, 48u8, 48u8, 45u8, 48u8, 48u8, 45u8, 99u8, 111u8, 110u8, 115u8, 101u8, 110u8, 115u8, 117u8, 115u8]@ =~= archive_tail());
        assert(out@ =~= archive_url_bytes(year as nat, month as nat, day as nat, hour as nat));
        proof {
            lemma_archive_url_ascii(year as nat, month as nat, day as nat, hour as nat);
        }
        Some(ascii_string(out))
    }
}

pub proof fn lemma_padded_ascii(n: nat, w: nat)
    ensures
        all_ascii(decimal_padded(n, w)),
{
    lemma_decimal_ascii(n);
    let p = decimal_padded(n, w);
    if decimal(n).len() < w {
        let z = (w - decimal(n).len()) as nat;
        assert forall|k: int| 0 <= k < p.len() implies #[trigger] p[k] < 128u8 by {
            if k >= z {
                assert(p[k] == decimal(n)[k - z]);
            }
        }
    }
}

pub proof fn lemma_archive_url_ascii(year: nat, month: nat, day: nat, hour: nat)
    ensures
        all_ascii(archive_url_bytes(year, month, day, hour)),
{
    lemma_padded_ascii(year, 4);
    lemma_padded_ascii(month, 2);
    lemma_padded_ascii(day, 2);
    lemma_padded_ascii(hour, 2);
    let u = archive_url_bytes(year, month, day, hour);
    assert(all_ascii(archive_base()));
    assert(all_ascii(archive_tail()));
    assert(all_ascii(seq![45u8]));
    lemma_concat_ascii(archive_base(), decimal_padded(year, 4));
    let a1 = archive_base() + decimal_padded(year, 4);
    lemma_concat_ascii(a1, seq![45u8]);
    let a2 = a1 + seq![45u8];
    lemma_concat_ascii(a2, decimal_padded(month, 2));
    let a3 = a2 + decimal_padded(month, 2);
    lemma_concat_ascii(a3, seq![45u8]);
    let a4 = a3 + seq![45u8];
    lemma_concat_ascii(a4, decimal_padded(day, 2));
    let a5 = a4 + decimal_padded(day, 2);
    lemma_concat_ascii(a5, seq![45u8]);
    let a6 = a5 + seq![45u8];
    lemma_concat_ascii(a6, decimal_padded(hour, 2));
    let a7 = a6 + decimal_padded(hour, 2);
    lemma_concat_ascii(a7, archive_tail());
}

impl NetworkConsensus {
    /// A consensus equal to this one in its window and relays.
    pub fn copy(&self) -> (r: NetworkConsensus)
        ensures
            relay_views(r.relays@) == relay_views(self.relays@),
            r.valid_after == self.valid_after,
            r.valid_until == self.valid_until,
            self.wf() ==> r.wf(),
    {
        let mut relays: Vec<RelayDescriptor> = Vec::with_capacity(self.relays.len());
        let mut i: usize = 0;
        while i < self.relays.len()
            invariant
                i <= self.relays@.len(),
                relays@.len() == i,
                forall|k: int| 0 <= k < i ==> (#[trigger] relays@[k])@ == self.relays@[k]@,
            decreases self.relays@.len() - i,
        {
            relays.push(self.relays[i].copy());
            i += 1;
        }
        assert(relay_views(relays@) =~= relay_views(self.relays@));
        NetworkConsensus {
            valid_after: self.valid_after,
            valid_until: self.valid_until,
            relays,
            signatures: self.signatures.clone(),
        }
    }
}

} // verus!
