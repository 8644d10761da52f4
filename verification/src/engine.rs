//! The differential sync engine and its protocol state machine.
//!
//! The engine owns the whole decision side of a flashing run: which command
//! to issue next, how to chunk checksum queries, which pages to rewrite, and
//! when to reset the device. The transport side performs each returned
//! [`Action`] against the device and feeds the device's answer back as an
//! [`Event`]; the engine never touches the wire itself.
//!
//! A ghost history records every issued action, so the command-ordering
//! rules of the protocol (info first, at most one arming, arming before any
//! checksum query, reset last) are stated and proved over it.

use vstd::prelude::*;

use crate::plan::{
    chunk_queries, lemma_chunks_bounded, lemma_plan_bounds, lemma_plan_of_equal_tables_empty,
    lemma_prefix_pages_total, pad_to_page, page_checksums, page_write_at, spec_chunks,
    spec_local_sums, spec_padded, spec_padded_len, spec_prefix_pages, spec_query_views,
    spec_write_plan, write_plan, ChecksumQuery,
};
use crate::{Segment, SegmentView, SyncError};

verus! {

/// Which firmware the device is currently running.
#[derive(Clone, Copy, PartialEq, Eq, Structural, Debug)]
pub enum DeviceMode {
    Bootloader,
    Application,
}

/// The device's answer to the info query, fixed for a whole flashing run.
#[derive(Clone, Copy, PartialEq, Eq, Structural, Debug)]
pub struct DeviceCapabilities {
    pub mode: DeviceMode,
    pub flash_page_size: u32,
    pub max_message_size: u32,
}

/// The page-count bound for one checksum query: the reply carries two bytes
/// per checksum and reserves two slots of framing overhead.
pub open spec fn spec_max_chunk_pages(caps: DeviceCapabilities) -> int {
    caps.max_message_size as int / 2 - 2
}

/// Capabilities the engine rejects outright: a zero page size, or a message
/// size too small to carry even one checksum slot.
pub open spec fn spec_caps_invalid(caps: DeviceCapabilities) -> bool {
    caps.flash_page_size == 0 || spec_max_chunk_pages(caps) < 1
}

/// A segment the engine can address: its padded image fits in memory, ends
/// within the 32-bit address space, and has a page count expressible on the
/// wire.
pub open spec fn spec_segment_fits(s: SegmentView, caps: DeviceCapabilities) -> bool {
    let p = caps.flash_page_size as nat;
    let padded = spec_padded_len(s.bytes.len(), p);
    &&& padded <= usize::MAX
    &&& s.target_address + padded <= 0x1_0000_0000
    &&& padded as int / p as int <= u32::MAX
}

/// Every segment of a run fits the device's paging parameters.
pub open spec fn spec_all_fit(segs: Seq<SegmentView>, caps: DeviceCapabilities) -> bool {
    forall|i: int| 0 <= i < segs.len() ==> spec_segment_fits(#[trigger] segs[i], caps)
}

/// A command for the transport to perform against the device.
#[derive(Debug)]
pub enum Action {
    /// Ask for the device's mode and paging parameters.
    QueryInfo,
    /// Put the device into bootloader mode.
    ArmBootloader,
    /// Ask for `num_pages` page checksums starting at `target_address`.
    QueryChecksums { target_address: u32, num_pages: u32 },
    /// Write one whole page.
    WritePage { target_address: u32, data: Vec<u8> },
    /// Restart the device into its application; no reply is expected.
    ResetToApplication,
    /// The run is complete; nothing is left to send.
    Done,
}

/// The device's answer to the previously returned action.
pub enum Event {
    /// Begins the run; no action has been performed yet.
    Start,
    /// The info reply.
    Info { caps: DeviceCapabilities },
    /// Acknowledgment of an arming or page-write command.
    Ack,
    /// The checksum table of one query.
    Checksums { table: Vec<u16> },
    /// The reset command was sent (the device may already be gone).
    ResetSent,
}

/// One issued command, as recorded in the session history.
pub ghost enum Act {
    QueryInfo,
    Arm,
    Query { addr: int, pages: int },
    Write { addr: int, data: Seq<u8> },
    Reset,
}

/// The history entry for an action, or `None` for [`Action::Done`], which
/// issues nothing.
pub open spec fn act_of(a: Action) -> Option<Act> {
    match a {
        Action::QueryInfo => Some(Act::QueryInfo),
        Action::ArmBootloader => Some(Act::Arm),
        Action::QueryChecksums { target_address, num_pages } => Some(
            Act::Query { addr: target_address as int, pages: num_pages as int },
        ),
        Action::WritePage { target_address, data } => Some(
            Act::Write { addr: target_address as int, data: data@ },
        ),
        Action::ResetToApplication => Some(Act::Reset),
        Action::Done => None,
    }
}

/// The acts every session history must begin with: the info query, then the
/// arming command exactly when the device reported application mode.
pub open spec fn spec_preamble(caps: DeviceCapabilities) -> Seq<Act> {
    if caps.mode is Application {
        seq![Act::QueryInfo, Act::Arm]
    } else {
        seq![Act::QueryInfo]
    }
}

/// An act the syncing part of a session may contain: a bounded checksum
/// query or a whole-page write.
pub open spec fn spec_op_ok(a: Act, caps: DeviceCapabilities) -> bool {
    match a {
        Act::Query { addr, pages } => 1 <= pages <= spec_max_chunk_pages(caps),
        Act::Write { addr, data } => data.len() == caps.flash_page_size,
        _ => false,
    }
}

/// The shape every session history keeps: the preamble first, then only
/// bounded queries and whole-page writes, with the reset, if sent, last.
pub open spec fn spec_hist_ok(h: Seq<Act>, caps: DeviceCapabilities, reset_sent: bool) -> bool {
    let pre = spec_preamble(caps);
    &&& h.len() >= pre.len()
    &&& h.subrange(0, pre.len() as int) == pre
    &&& forall|i: int|
        pre.len() <= i < h.len() ==> (spec_op_ok(#[trigger] h[i], caps) || (reset_sent && i
            == h.len() - 1 && h[i] is Reset))
    &&& if reset_sent {
        h.len() > pre.len() && h.last() is Reset
    } else {
        true
    }
}

enum Phase {
    AwaitStart,
    AwaitInfo,
    AwaitArmAck,
    AwaitChecksums,
    AwaitWriteAck,
    AwaitResetSent,
    Done,
    Failed,
}

/// Drives one flashing run over all segments: queries device info, arms the
/// bootloader when needed, fetches checksum tables in bounded chunks, writes
/// exactly the differing pages, and finally resets into the application.
pub struct SyncEngine {
    segments: Vec<Segment>,
    phase: Phase,
    caps: Option<DeviceCapabilities>,
    seg: usize,
    padded: Vec<u8>,
    pages: usize,
    queries: Vec<ChecksumQuery>,
    chunk: usize,
    table: Vec<u16>,
    plan: Vec<usize>,
    wi: usize,
    hist: Ghost<Seq<Act>>,
}

impl SyncEngine {
    /// Every action issued so far, in order.
    pub closed spec fn history(self) -> Seq<Act> {
        self.hist@
    }

    /// The segments this run flashes, in order.
    pub closed spec fn segments_view(self) -> Seq<SegmentView> {
        self.segments@.map_values(|s: Segment| s@)
    }

    /// Whether the info reply has been received and accepted.
    pub closed spec fn has_caps(self) -> bool {
        self.caps is Some
    }

    /// The accepted device capabilities.
    pub closed spec fn caps_of(self) -> DeviceCapabilities {
        match self.caps {
            Some(c) => c,
            None => arbitrary(),
        }
    }

    /// The engine still expects further events.
    pub closed spec fn running(self) -> bool {
        !(self.phase is Done || self.phase is Failed)
    }

    /// The event kind the engine's last action calls for.
    pub closed spec fn expects(self, event: Event) -> bool {
        match self.phase {
            Phase::AwaitStart => event is Start,
            Phase::AwaitInfo => event is Info,
            Phase::AwaitArmAck => event is Ack,
            Phase::AwaitChecksums => event is Checksums,
            Phase::AwaitWriteAck => event is Ack,
            Phase::AwaitResetSent => event is ResetSent,
            Phase::Done => false,
            Phase::Failed => false,
        }
    }

    /// A checksum reply whose length differs from the pending query's page
    /// count: the protocol desync the engine refuses to index past.
    pub closed spec fn bad_response(self, event: Event) -> bool {
        &&& self.phase is AwaitChecksums
        &&& event matches Event::Checksums { table } && table@.len() != self.queries@[self.chunk as int].num_pages
    }

    /// The capabilities a step runs under: those delivered by this very
    /// event, or the ones already accepted.
    pub closed spec fn caps_in_effect(self, event: Event) -> Option<DeviceCapabilities> {
        match event {
            Event::Info { caps } => Some(caps),
            _ => self.caps,
        }
    }

    /// No input-dependent failure applies: the reply is well-shaped, the
    /// capabilities are acceptable, and every segment fits them.
    pub closed spec fn step_must_succeed(self, event: Event) -> bool {
        &&& !self.bad_response(event)
        &&& match self.caps_in_effect(event) {
            Some(c) => !spec_caps_invalid(c) && spec_all_fit(self.segments_view(), c),
            None => true,
        }
    }

    /// This event completes the current segment's checksum table: it answers
    /// the last pending chunk query, with the right length.
    pub closed spec fn completes_table(self, event: Event) -> bool {
        &&& self.phase is AwaitChecksums
        &&& event matches Event::Checksums { table } && {
            &&& table@.len() == self.queries@[self.chunk as int].num_pages
            &&& self.chunk + 1 == self.queries@.len()
        }
    }

    /// The whole device checksum table for the current segment: the chunks
    /// already collected plus this event's final one.
    pub closed spec fn full_table(self, event: Event) -> Seq<u16> {
        match event {
            Event::Checksums { table } => self.table@ + table@,
            _ => self.table@,
        }
    }

    /// The current segment's locally computed checksum table.
    pub closed spec fn current_local(self) -> Seq<u16> {
        spec_local_sums(self.padded@, self.caps_of().flash_page_size as nat)
    }

    /// The current segment's page count.
    pub closed spec fn current_page_count(self) -> int {
        self.pages as int
    }

    /// The current segment's target address.
    pub closed spec fn current_base(self) -> int {
        self.segments@[self.seg as int]@.target_address as int
    }

    /// The padded bytes of page `k` of the current segment.
    pub closed spec fn current_page_bytes(self, k: int) -> Seq<u8> {
        crate::plan::spec_page(self.padded@, self.caps_of().flash_page_size as nat, k)
    }

    /// The write plan the completed table calls for: the indices of the
    /// pages whose device checksum differs from the local one.
    pub closed spec fn plan_after(self, event: Event) -> Seq<int> {
        spec_write_plan(self.current_local(), self.full_table(event), self.current_page_count())
    }

    /// The engine is between page writes of the current segment.
    pub closed spec fn in_write_phase(self) -> bool {
        self.phase is AwaitWriteAck
    }

    /// The current segment's write plan, once its table is complete.
    pub closed spec fn write_plan_now(self) -> Seq<int> {
        spec_write_plan(self.current_local(), self.table@, self.current_page_count())
    }

    /// The number of page writes already issued for the current segment.
    pub closed spec fn writes_issued(self) -> int {
        self.wi as int + 1
    }

    /// This event completes the current segment's checksum table, and the
    /// completed table equals the locally computed one: the device already
    /// holds the segment.
    pub closed spec fn unchanged_device(self, event: Event) -> bool {
        &&& self.completes_table(event)
        &&& self.full_table(event) == self.current_local()
    }

    spec fn segs_nonempty(self) -> bool {
        forall|i: int|
            0 <= i < self.segments@.len() ==> (#[trigger] self.segments@[i])@.bytes.len() > 0
    }

    /// The per-segment state while checksum queries or page writes are in
    /// flight: the stored padded image, chunk plan, and (in the write phase)
    /// write plan are exactly those of the current segment.
    spec fn seg_state_ok(self, c: DeviceCapabilities) -> bool {
        let s = self.segments@[self.seg as int]@;
        let p = c.flash_page_size as nat;
        &&& self.seg < self.segments@.len()
        &&& spec_segment_fits(s, c)
        &&& self.padded@ == spec_padded(s.bytes, p)
        &&& self.pages == self.padded@.len() as int / p as int
        &&& self.pages > 0
        &&& spec_query_views(self.queries@) == spec_chunks(
            s.target_address as int,
            self.pages as int,
            spec_max_chunk_pages(c),
            c.flash_page_size as int,
        )
        &&& spec_prefix_pages(self.queries@, self.queries@.len() as int) == self.pages
    }

    spec fn checksums_state_ok(self, c: DeviceCapabilities) -> bool {
        &&& self.seg_state_ok(c)
        &&& self.chunk < self.queries@.len()
        &&& self.table@.len() == spec_prefix_pages(self.queries@, self.chunk as int)
    }

    spec fn writes_state_ok(self, c: DeviceCapabilities) -> bool {
        let p = c.flash_page_size as nat;
        let plan = spec_write_plan(
            spec_local_sums(self.padded@, p),
            self.table@,
            self.pages as int,
        );
        &&& self.seg_state_ok(c)
        &&& self.table@.len() == self.pages
        &&& self.plan@.len() == plan.len()
        &&& forall|j: int| 0 <= j < self.plan@.len() ==> self.plan@[j] as int == plan[j]
        &&& self.wi < self.plan@.len()
    }

    /// The engine's invariant: established by [`SyncEngine::new`], preserved
    /// by every [`SyncEngine::step`].
    pub closed spec fn wf(self) -> bool {
        &&& self.segs_nonempty()
        &&& match self.phase {
            Phase::AwaitStart => {
                &&& self.hist@ == Seq::<Act>::empty()
                &&& self.caps is None
                &&& self.seg == 0
            },
            Phase::AwaitInfo => {
                &&& self.hist@ == seq![Act::QueryInfo]
                &&& self.caps is None
                &&& self.seg == 0
            },
            Phase::AwaitArmAck => {
                &&& self.caps matches Some(c) && {
                    &&& !spec_caps_invalid(c)
                    &&& c.mode is Application
                    &&& self.seg == 0
                    &&& self.hist@ == spec_preamble(c)
                }
            },
            Phase::AwaitChecksums => {
                &&& self.caps matches Some(c) && {
                    &&& !spec_caps_invalid(c)
                    &&& self.checksums_state_ok(c)
                    &&& spec_hist_ok(self.hist@, c, false)
                }
            },
            Phase::AwaitWriteAck => {
                &&& self.caps matches Some(c) && {
                    &&& !spec_caps_invalid(c)
                    &&& self.writes_state_ok(c)
                    &&& spec_hist_ok(self.hist@, c, false)
                }
            },
            Phase::AwaitResetSent => {
                &&& self.caps matches Some(c) && {
                    &&& !spec_caps_invalid(c)
                    &&& self.seg == self.segments@.len()
                    &&& spec_hist_ok(self.hist@, c, true)
                }
            },
            Phase::Done => {
                &&& self.caps matches Some(c) && {
                    &&& !spec_caps_invalid(c)
                    &&& spec_hist_ok(self.hist@, c, true)
                }
            },
            Phase::Failed => {
                &&& match self.caps {
                    None => self.hist@ == Seq::<Act>::empty() || self.hist@ == seq![
                        Act::QueryInfo,
                    ],
                    Some(c) => !spec_caps_invalid(c) && spec_hist_ok(self.hist@, c, false),
                }
            },
        }
    }

    /// Creates the engine for one flashing run over `segments`, in order.
    ///
    /// Segments carry at least one byte each, as the extractor guarantees.
    pub fn new(segments: Vec<Segment>) -> (r: SyncEngine)
        requires
            forall|i: int|
                0 <= i < segments@.len() ==> (#[trigger] segments@[i])@.bytes.len() > 0,
        ensures
            r.wf(),
            r.running(),
            r.history() == Seq::<Act>::empty(),
            r.segments_view() == segments@.map_values(|s: Segment| s@),
            forall|e: Event| r.expects(e) <==> e is Start,
    {
        SyncEngine {
            segments,
            phase: Phase::AwaitStart,
            caps: None,
            seg: 0,
            padded: Vec::new(),
            pages: 0,
            queries: Vec::new(),
            chunk: 0,
            table: Vec::new(),
            plan: Vec::new(),
            wi: 0,
            hist: Ghost(Seq::empty()),
        }
    }

    /// The state between segments: capabilities accepted, history shaped,
    /// no segment currently in flight.
    spec fn pre_segment_ok(self) -> bool {
        &&& self.segs_nonempty()
        &&& self.caps matches Some(c) && {
            &&& !spec_caps_invalid(c)
            &&& self.seg <= self.segments@.len()
            &&& spec_hist_ok(self.hist@, c, false)
        }
    }

    /// Starts the next pending segment by issuing its first checksum query,
    /// or issues the reset once every segment is synced.
    fn begin_next_segment(&mut self) -> (r: Result<Action, SyncError>)
        requires
            old(self).pre_segment_ok(),
        ensures
            final(self).wf(),
            final(self).segments_view() == old(self).segments_view(),
            final(self).has_caps(),
            final(self).caps_of() == old(self).caps_of(),
            match r {
                Ok(a) => {
                    &&& final(self).running()
                    &&& act_of(a) matches Some(act) && final(self).history() == old(
                        self,
                    ).history().push(act)
                    &&& (a is QueryChecksums || a is ResetToApplication)
                    &&& (a matches Action::QueryChecksums { num_pages, .. } ==> 1 <= num_pages
                        <= spec_max_chunk_pages(old(self).caps_of()))
                },
                Err(e) => {
                    &&& !final(self).running()
                    &&& final(self).history() == old(self).history()
                    &&& e is MalformedImage
                    &&& !spec_all_fit(old(self).segments_view(), old(self).caps_of())
                },
            },
            spec_all_fit(old(self).segments_view(), old(self).caps_of()) ==> r is Ok,
    {
        let c = self.caps.unwrap();
        if self.seg == self.segments.len() {
            self.phase = Phase::AwaitResetSent;
            proof {
                let pre = spec_preamble(c);
                let h0 = self.hist@;
                self.hist@ = self.hist@.push(Act::Reset);
                assert(self.hist@.subrange(0, pre.len() as int) =~= h0.subrange(
                    0,
                    pre.len() as int,
                ));
                assert(self.hist@.last() is Reset);
            }
            return Ok(Action::ResetToApplication);
        }
        let psz = c.flash_page_size;
        let target = self.segments[self.seg].target_address;
        let ghost sv = self.segments@[self.seg as int]@;
        proof {
            assert(self.segments@[self.seg as int]@.bytes.len() > 0);
        }
        let padded = match pad_to_page(self.segments[self.seg].bytes.as_slice(), psz as usize) {
            Some(p) => p,
            None => {
                self.phase = Phase::Failed;
                proof {
                    assert(!spec_segment_fits(sv, c));
                    assert(self.segments_view()[self.seg as int] == sv);
                }
                return Err(SyncError::MalformedImage);
            },
        };
        if (padded.len() as u64) > 0x1_0000_0000u64 - (target as u64) {
            self.phase = Phase::Failed;
            proof {
                assert(!spec_segment_fits(sv, c));
                assert(self.segments_view()[self.seg as int] == sv);
            }
            return Err(SyncError::MalformedImage);
        }
        let pages = padded.len() / (psz as usize);
        proof {
            crate::plan::lemma_padded_len_minimal(sv.bytes.len(), psz as nat);
            assert(padded@.len() % (psz as nat) == 0);
        }
        if (pages as u64) > (u32::MAX as u64) {
            self.phase = Phase::Failed;
            proof {
                assert(!spec_segment_fits(sv, c));
                assert(self.segments_view()[self.seg as int] == sv);
            }
            return Err(SyncError::MalformedImage);
        }
        proof {
            vstd::arithmetic::div_mod::lemma_fundamental_div_mod(
                padded@.len() as int,
                psz as int,
            );
            assert(padded@.len() as int % (psz as int) == 0);
            assert(padded@.len() == (pages as int) * (psz as int)) by (nonlinear_arith)
                requires
                    padded@.len() as int == (psz as int) * (padded@.len() as int / (psz as int))
                        + padded@.len() as int % (psz as int),
                    padded@.len() as int % (psz as int) == 0,
                    pages as int == padded@.len() as int / (psz as int),
            ;
            assert(pages >= 1) by (nonlinear_arith)
                requires
                    padded@.len() == (pages as int) * (psz as int),
                    padded@.len() >= 1,
                    psz >= 1,
            ;
        }
        let maxp = c.max_message_size / 2 - 2;
        let queries = chunk_queries(target, pages as u32, maxp, psz);
        proof {
            lemma_prefix_pages_total(
                queries@,
                target as int,
                pages as int,
                maxp as int,
                psz as int,
            );
            assert(spec_chunks(target as int, pages as int, maxp as int, psz as int).len() >= 1);
            assert(queries@.len() >= 1);
            lemma_chunks_bounded(target as int, pages as int, maxp as int, psz as int);
        }
        self.padded = padded;
        self.pages = pages;
        self.queries = queries;
        self.chunk = 0;
        self.table = Vec::new();
        self.plan = Vec::new();
        self.wi = 0;
        self.phase = Phase::AwaitChecksums;
        let q0 = self.queries[0];
        proof {
            assert(spec_query_views(self.queries@)[0] == (
                target as int,
                q0.num_pages as int,
            ));
            assert(1 <= q0.num_pages <= spec_max_chunk_pages(c));
            let pre = spec_preamble(c);
            let h0 = self.hist@;
            self.hist@ = self.hist@.push(
                Act::Query { addr: q0.target_address as int, pages: q0.num_pages as int },
            );
            assert(self.hist@.subrange(0, pre.len() as int) =~= h0.subrange(
                0,
                pre.len() as int,
            ));
            assert(spec_prefix_pages(self.queries@, 0) == 0);
        }
        Ok(Action::QueryChecksums { target_address: q0.target_address, num_pages: q0.num_pages })
    }

    /// Feeds the device's answer to the last action into the engine and
    /// returns the next action to perform.
    ///
    /// On `Ok`, the returned action (unless it is [`Action::Done`]) is
    /// appended to the history; every checksum query it issues respects the
    /// message-size bound, every write carries exactly one page. On `Err`,
    /// nothing further is issued: unacceptable capabilities fail with
    /// `InvalidDeviceCapabilities`, a mis-sized checksum table with
    /// `ProtocolError`, and a segment the paging parameters cannot address
    /// with `MalformedImage`. A device whose reported checksums already
    /// match a segment never receives a write for it.
    pub fn step(&mut self, event: Event) -> (r: Result<Action, SyncError>)
        requires
            old(self).wf(),
            old(self).running(),
            old(self).expects(event),
        ensures
            final(self).wf(),
            final(self).segments_view() == old(self).segments_view(),
            match r {
                Ok(a) => {
                    &&& (final(self).running() <==> !(a is Done))
                    &&& match act_of(a) {
                        Some(act) => final(self).history() == old(self).history().push(act),
                        None => final(self).history() == old(self).history(),
                    }
                    &&& (a matches Action::QueryChecksums { num_pages, .. } ==> old(
                        self,
                    ).caps_in_effect(event) matches Some(c) && 1 <= num_pages
                        <= spec_max_chunk_pages(c))
                    &&& (a matches Action::WritePage { data, .. } ==> old(self).caps_in_effect(
                        event,
                    ) matches Some(c) && data@.len() == c.flash_page_size)
                },
                Err(e) => {
                    &&& !final(self).running()
                    &&& final(self).history() == old(self).history()
                    &&& ((e is InvalidDeviceCapabilities) <==> (event matches Event::Info { caps }
                        && spec_caps_invalid(caps)))
                    &&& ((e is ProtocolError) <==> old(self).bad_response(event))
                    &&& ((e is MalformedImage) ==> match old(self).caps_in_effect(event) {
                        Some(c) => !spec_all_fit(old(self).segments_view(), c),
                        None => false,
                    })
                    &&& (e is InvalidDeviceCapabilities || e is ProtocolError
                        || e is MalformedImage)
                },
            },
            old(self).step_must_succeed(event) ==> r is Ok,
            old(self).unchanged_device(event) ==> !(r matches Ok(Action::WritePage { .. })),
            old(self).completes_table(event) && old(self).plan_after(event).len() == 0 ==> !(
            r matches Ok(Action::WritePage { .. })),
            old(self).completes_table(event) && old(self).plan_after(event).len() > 0 ==> (
            r matches Ok(a) && a matches Action::WritePage { target_address, data } && {
                let k = old(self).plan_after(event)[0];
                &&& target_address as int == old(self).current_base() + k * (old(
                    self,
                ).caps_of().flash_page_size as int)
                &&& data@ == old(self).current_page_bytes(k)
            }),
            event is Ack && old(self).in_write_phase() && old(self).writes_issued() < old(
                self,
            ).write_plan_now().len() ==> (r matches Ok(a) && a matches Action::WritePage {
                target_address,
                data,
            } && {
                let k = old(self).write_plan_now()[old(self).writes_issued()];
                &&& target_address as int == old(self).current_base() + k * (old(
                    self,
                ).caps_of().flash_page_size as int)
                &&& data@ == old(self).current_page_bytes(k)
            }),
            event is Ack && old(self).in_write_phase() && old(self).writes_issued() == old(
                self,
            ).write_plan_now().len() ==> !(r matches Ok(Action::WritePage { .. })),
    {
        match event {
            Event::Start => {
                self.phase = Phase::AwaitInfo;
                proof {
                    self.hist@ = self.hist@.push(Act::QueryInfo);
                    assert(self.hist@ =~= seq![Act::QueryInfo]);
                }
                Ok(Action::QueryInfo)
            },
            Event::Info { caps } => {
                if caps.flash_page_size == 0 || caps.max_message_size / 2 < 3 {
                    self.phase = Phase::Failed;
                    return Err(SyncError::InvalidDeviceCapabilities);
                }
                self.caps = Some(caps);
                match caps.mode {
                    DeviceMode::Application => {
                        self.phase = Phase::AwaitArmAck;
                        proof {
                            self.hist@ = self.hist@.push(Act::Arm);
                            assert(self.hist@ =~= spec_preamble(caps));
                        }
                        Ok(Action::ArmBootloader)
                    },
                    DeviceMode::Bootloader => {
                        proof {
                            let pre = spec_preamble(caps);
                            assert(self.hist@.subrange(0, pre.len() as int) =~= pre);
                        }
                        self.begin_next_segment()
                    },
                }
            },
            Event::Ack => {
                match self.phase {
                    Phase::AwaitArmAck => {
                        proof {
                            let c = self.caps_of();
                            let pre = spec_preamble(c);
                            assert(self.hist@.subrange(0, pre.len() as int) =~= pre);
                        }
                        self.begin_next_segment()
                    },
                    Phase::AwaitWriteAck => {
                        let n = self.plan.len();
                        self.wi = self.wi + 1;
                        if self.wi < n {
                            self.emit_pending_write()
                        } else {
                            let nseg = self.segments.len();
                            proof {
                                assert(self.seg < nseg);
                            }
                            self.seg = self.seg + 1;
                            self.begin_next_segment()
                        }
                    },
                    _ => unreached(),
                }
            },
            Event::Checksums { table: mut t } => {
                let q = self.queries[self.chunk];
                if t.len() != q.num_pages as usize {
                    self.phase = Phase::Failed;
                    return Err(SyncError::ProtocolError);
                }
                self.table.append(&mut t);
                let nq = self.queries.len();
                proof {
                    assert(self.chunk < nq);
                }
                self.chunk = self.chunk + 1;
                proof {
                    assert(spec_prefix_pages(self.queries@, self.chunk as int)
                        == spec_prefix_pages(self.queries@, self.chunk as int - 1)
                        + self.queries@[self.chunk as int - 1].num_pages);
                }
                if self.chunk < self.queries.len() {
                    let qn = self.queries[self.chunk];
                    let c = self.caps.unwrap();
                    proof {
                        let s = self.segments@[self.seg as int]@;
                        lemma_chunks_bounded(
                            s.target_address as int,
                            self.pages as int,
                            spec_max_chunk_pages(c),
                            c.flash_page_size as int,
                        );
                        assert(spec_query_views(self.queries@)[self.chunk as int] == (
                            qn.target_address as int,
                            qn.num_pages as int,
                        ));
                        let pre = spec_preamble(c);
                        let h0 = self.hist@;
                        self.hist@ = self.hist@.push(
                            Act::Query {
                                addr: qn.target_address as int,
                                pages: qn.num_pages as int,
                            },
                        );
                        assert(self.hist@.subrange(0, pre.len() as int) =~= h0.subrange(
                            0,
                            pre.len() as int,
                        ));
                    }
                    Ok(
                        Action::QueryChecksums {
                            target_address: qn.target_address,
                            num_pages: qn.num_pages,
                        },
                    )
                } else {
                    let c = self.caps.unwrap();
                    let psz = c.flash_page_size;
                    proof {
                        let s = self.segments@[self.seg as int]@;
                        crate::plan::lemma_padded_len_minimal(s.bytes.len(), psz as nat);
                        assert(self.padded@.len() % (psz as nat) == 0);
                    }
                    let local = page_checksums(self.padded.as_slice(), psz as usize);
                    proof {
                        assert(local@.len() == self.pages);
                        assert(self.table@.len() == self.pages);
                    }
                    let plan = write_plan(&local, &self.table);
                    self.plan = plan;
                    self.wi = 0;
                    proof {
                        lemma_plan_bounds(local@, self.table@, self.pages as int);
                        if old(self).unchanged_device(event) {
                            lemma_plan_of_equal_tables_empty(local@, self.pages as int);
                        }
                    }
                    if self.plan.len() > 0 {
                        self.phase = Phase::AwaitWriteAck;
                        self.emit_pending_write()
                    } else {
                        let nseg = self.segments.len();
                        proof {
                            assert(self.seg < nseg);
                        }
                        self.seg = self.seg + 1;
                        self.begin_next_segment()
                    }
                }
            },
            Event::ResetSent => {
                self.phase = Phase::Done;
                Ok(Action::Done)
            },
        }
    }

    /// Issues the write for the pending plan entry.
    fn emit_pending_write(&mut self) -> (r: Result<Action, SyncError>)
        requires
            old(self).wf_writes(),
        ensures
            final(self).wf(),
            final(self).segments_view() == old(self).segments_view(),
            r matches Ok(a) && a matches Action::WritePage { target_address, data } && {
                let k = old(self).write_plan_now()[old(self).wi as int];
                &&& target_address as int == old(self).current_base() + k * (old(
                    self,
                ).caps_of().flash_page_size as int)
                &&& data@ == old(self).current_page_bytes(k)
                &&& data@.len() == old(self).caps_of().flash_page_size
            },
            final(self).running(),
            act_of(r.unwrap()) matches Some(act) && final(self).history() == old(
                self,
            ).history().push(act),
    {
        let c = self.caps.unwrap();
        let psz = c.flash_page_size;
        let target = self.segments[self.seg].target_address;
        let k = self.plan[self.wi];
        proof {
            let s = self.segments@[self.seg as int]@;
            crate::plan::lemma_padded_len_minimal(s.bytes.len(), psz as nat);
            let plan = spec_write_plan(
                spec_local_sums(self.padded@, psz as nat),
                self.table@,
                self.pages as int,
            );
            lemma_plan_bounds(
                spec_local_sums(self.padded@, psz as nat),
                self.table@,
                self.pages as int,
            );
            assert(self.plan@[self.wi as int] as int == plan[self.wi as int]);
        }
        let w = page_write_at(target, self.padded.as_slice(), psz, k);
        proof {
            let pre = spec_preamble(c);
            let h0 = self.hist@;
            self.hist@ = self.hist@.push(
                Act::Write { addr: w.target_address as int, data: w.data@ },
            );
            assert(self.hist@.subrange(0, pre.len() as int) =~= h0.subrange(
                0,
                pre.len() as int,
            ));
        }
        Ok(Action::WritePage { target_address: w.target_address, data: w.data })
    }

    /// The write-phase invariant, as `emit_pending_write` needs it.
    spec fn wf_writes(self) -> bool {
        &&& self.segs_nonempty()
        &&& self.phase is AwaitWriteAck
        &&& self.caps matches Some(c) && {
            &&& !spec_caps_invalid(c)
            &&& self.writes_state_ok(c)
            &&& spec_hist_ok(self.hist@, c, false)
        }
    }
}

proof fn lemma_hist_arm_discipline(h: Seq<Act>, c: DeviceCapabilities, reset: bool)
    requires
        spec_hist_ok(h, c, reset),
    ensures
        forall|i: int| 0 <= i < h.len() && (#[trigger] h[i]) is Arm ==> i == 1,
        forall|i: int, j: int|
            0 <= i < h.len() && 0 <= j < h.len() && (#[trigger] h[i]) is Arm && (
            #[trigger] h[j]) is Query ==> i < j,
        c.mode is Bootloader ==> forall|i: int| 0 <= i < h.len() ==> !((#[trigger] h[i]) is Arm),
        c.mode is Application && (exists|j: int| 0 <= j < h.len() && (#[trigger] h[j]) is Query)
            ==> h.len() > 1 && h[1] is Arm,
{
    let pre = spec_preamble(c);
    assert(h[0] == h.subrange(0, pre.len() as int)[0]);
    assert(h[0] is QueryInfo);
    if pre.len() == 2 {
        assert(h[1] == h.subrange(0, pre.len() as int)[1]);
        assert(h[1] is Arm);
    }
    assert forall|i: int| 0 <= i < h.len() && (#[trigger] h[i]) is Arm implies i == 1 by {
        if i >= pre.len() {
            assert(spec_op_ok(h[i], c) || (reset && i == h.len() - 1 && h[i] is Reset));
        } else if i == 0 {
            assert(h[0] is QueryInfo);
        }
    }
    assert forall|j: int| 0 <= j < h.len() && (#[trigger] h[j]) is Query implies j
        >= pre.len() by {
        if j < pre.len() {
            assert(h[j] == h.subrange(0, pre.len() as int)[j]);
        }
    }
}

/// Bootloader arming discipline: in any session history the arming command
/// appears only directly after the info query, at most once, and before
/// every checksum query; a device that already reported bootloader mode is
/// never armed, and one that reported application mode is armed before its
/// first checksum query.
pub proof fn lemma_arm_discipline(e: SyncEngine)
    requires
        e.wf(),
    ensures
        forall|i: int|
            0 <= i < e.history().len() && (#[trigger] e.history()[i]) is Arm ==> i == 1,
        forall|i: int, j: int|
            0 <= i < e.history().len() && 0 <= j < e.history().len() && (
            #[trigger] e.history()[i]) is Arm && (#[trigger] e.history()[j]) is Query ==> i < j,
        e.has_caps() && e.caps_of().mode is Bootloader ==> forall|i: int|
            0 <= i < e.history().len() ==> !((#[trigger] e.history()[i]) is Arm),
        e.has_caps() && e.caps_of().mode is Application && (exists|j: int|
            0 <= j < e.history().len() && (#[trigger] e.history()[j]) is Query)
            ==> e.history().len() > 1 && e.history()[1] is Arm,
{
    let h = e.history();
    match e.phase {
        Phase::AwaitStart => {
            assert(h.len() == 0);
        },
        Phase::AwaitInfo => {
            assert(h =~= seq![Act::QueryInfo]);
            assert(h[0] is QueryInfo);
        },
        Phase::AwaitArmAck => {
            let c = e.caps_of();
            let pre = spec_preamble(c);
            assert(h.subrange(0, pre.len() as int) =~= pre);
            lemma_hist_arm_discipline(h, c, false);
        },
        Phase::AwaitChecksums => {
            lemma_hist_arm_discipline(h, e.caps_of(), false);
        },
        Phase::AwaitWriteAck => {
            lemma_hist_arm_discipline(h, e.caps_of(), false);
        },
        Phase::AwaitResetSent => {
            lemma_hist_arm_discipline(h, e.caps_of(), true);
        },
        Phase::Done => {
            lemma_hist_arm_discipline(h, e.caps_of(), true);
        },
        Phase::Failed => {
            match e.caps {
                None => {
                    if h.len() > 0 {
                        assert(h =~= seq![Act::QueryInfo]);
                        assert(h[0] is QueryInfo);
                    }
                },
                Some(c) => {
                    lemma_hist_arm_discipline(h, c, false);
                },
            }
        },
    }
}

} // verus!
