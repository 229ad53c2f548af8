//! Raft commands as they reach the proxy after they were executed, and what the proxy
//! makes of them: what it hands to the engine store, and whether the engine store's answer
//! calls for the region's state to be made durable.

use vstd::prelude::*;
use vstd::slice::slice_subrange;

use crate::bytes;
use crate::ffi;
use crate::ffi::{
    ColumnFamilyType, EngineStoreApplyRes, RaftCmdHeader, WriteCmdCf, WriteCmdSpec, WriteCmdType,
    WriteCmds,
};
use crate::messages::{
    AdminCmdType, AdminRequest, AdminRequestView, AdminResponse, AdminResponseView, Region,
};

verus! {

/// A sorted file that was uploaded to a store.
#[derive(Debug)]
pub struct SstMeta {
    pub uuid: Vec<u8>,
    pub region_id: u64,
    pub cf_name: String,
}

#[verifier::ext_equal]
pub struct SstMetaView {
    pub uuid: Seq<u8>,
    pub region_id: u64,
    pub cf_name: Seq<char>,
}

impl View for SstMeta {
    type V = SstMetaView;

    open spec fn view(&self) -> SstMetaView {
        SstMetaView { uuid: self.uuid@, region_id: self.region_id, cf_name: self.cf_name@ }
    }
}

impl Clone for SstMeta {
    fn clone(&self) -> (r: Self)
        ensures
            r@ == self@,
    {
        SstMeta {
            uuid: bytes::copy_of(&self.uuid),
            region_id: self.region_id,
            cf_name: self.cf_name.clone(),
        }
    }
}

/// A sorted file and its size.
#[derive(Debug)]
pub struct SstMetaInfo {
    pub total_bytes: u64,
    pub total_kvs: u64,
    pub meta: SstMeta,
}

/// One request of a write command.
#[derive(Debug)]
pub enum Request {
    Put { cf: String, key: Vec<u8>, value: Vec<u8> },
    Delete { cf: String, key: Vec<u8> },
    IngestSst { sst: SstMeta },
    Snap,
    Get,
    DeleteRange,
    Prewrite,
    Invalid,
    ReadIndex,
}

/// What a client asked for: writes, or one administrative command.
#[derive(Debug)]
pub struct RaftCmdRequest {
    pub requests: Vec<Request>,
    pub admin_request: Option<AdminRequest>,
}

/// What executing a command gave.
#[derive(Debug)]
pub struct RaftCmdResponse {
    pub has_error: bool,
    pub admin_response: AdminResponse,
}

/// A command at its place in a region's log.
#[derive(Debug)]
pub struct Cmd {
    pub index: u64,
    pub term: u64,
    pub request: RaftCmdRequest,
    pub response: RaftCmdResponse,
}

/// What is known of a region's replica when a command was executed.
#[derive(Debug)]
pub struct RegionState {
    pub peer_id: u64,
    /// The replica is about to be removed.
    pub pending_remove: bool,
    /// The region, where the command changed it.
    pub modified_region: Option<Region>,
}

/// The sorted files that belong to the commands being applied.
pub struct ApplyCtxInfo {
    /// Files that the current command ingests.
    pub pending_handle_ssts: Option<Vec<SstMetaInfo>>,
    /// Files that can be deleted.
    pub delete_ssts: Vec<SstMetaInfo>,
}

impl RaftCmdRequest {
    /// The kind of the administrative command, or the invalid kind where there is none.
    pub open spec fn admin_type(self) -> AdminCmdType {
        match self.admin_request {
            Some(r) => r.cmd_type,
            None => AdminCmdType::InvalidAdmin,
        }
    }

    /// The administrative command, or one of the invalid kind where there is none.
    pub open spec fn admin_view(self) -> AdminRequestView {
        match self.admin_request {
            Some(r) => r@,
            None => AdminRequestView::spec_new(AdminCmdType::InvalidAdmin),
        }
    }

    /// A copy of the administrative command, or one of the invalid kind where there is none.
    pub fn get_admin_request(&self) -> (r: AdminRequest)
        ensures
            r@ == self.admin_view(),
    {
        match &self.admin_request {
            Some(r) => r.clone(),
            None => AdminRequest::new(AdminCmdType::InvalidAdmin),
        }
    }

    /// The kind of the administrative command, or the invalid kind where there is none.
    pub fn get_admin_type(&self) -> (r: AdminCmdType)
        ensures
            r == self.admin_type(),
    {
        match &self.admin_request {
            Some(r) => r.cmd_type,
            None => AdminCmdType::InvalidAdmin,
        }
    }
}

/// The write that a request stands for, if it is a write.
pub open spec fn write_of(req: Request) -> Option<WriteCmdSpec> {
    match req {
        Request::Put { cf, key, value } => Some(
            WriteCmdSpec {
                key: key@,
                val: value@,
                cmd_type: WriteCmdType::Put,
                cf: WriteCmdCf::of_name(cf@)->0.code(),
            },
        ),
        Request::Delete { cf, key } => Some(
            WriteCmdSpec {
                key: key@,
                val: Seq::empty(),
                cmd_type: WriteCmdType::Del,
                cf: WriteCmdCf::of_name(cf@)->0.code(),
            },
        ),
        _ => None,
    }
}

/// The writes among some requests, in their order.
pub open spec fn writes_of(reqs: Seq<Request>) -> Seq<WriteCmdSpec>
    decreases reqs.len(),
{
    if reqs.len() == 0 {
        Seq::empty()
    } else {
        let p = writes_of(reqs.drop_last());
        match write_of(reqs.last()) {
            Some(w) => p.push(w),
            None => p,
        }
    }
}

/// The sorted files among some requests, in their order.
pub open spec fn ssts_of(reqs: Seq<Request>) -> Seq<SstMetaView>
    decreases reqs.len(),
{
    if reqs.len() == 0 {
        Seq::empty()
    } else {
        let p = ssts_of(reqs.drop_last());
        match reqs.last() {
            Request::IngestSst { sst } => p.push(sst@),
            _ => p,
        }
    }
}

/// A request that the proxy can take: of a known kind, on a known column family.
pub open spec fn request_fits(req: Request) -> bool {
    match req {
        Request::Put { cf, .. } => WriteCmdCf::of_name(cf@) is Some,
        Request::Delete { cf, .. } => WriteCmdCf::of_name(cf@) is Some,
        Request::Prewrite | Request::Invalid | Request::ReadIndex => false,
        _ => true,
    }
}

/// Requests that the proxy can take: sorted files do not come with other writes.
pub open spec fn requests_fit(reqs: Seq<Request>) -> bool {
    &&& forall|i: int| 0 <= i < reqs.len() ==> request_fits(#[trigger] reqs[i])
    &&& ssts_of(reqs).len() > 0 ==> writes_of(reqs).len() == 0
}

/// The views of sorted files that have no sizes yet.
pub open spec fn unsized_views(v: Seq<SstMetaInfo>) -> Seq<SstMetaView> {
    Seq::new(v.len(), |i: int| v[i].meta@)
}

/// What is handed to the engine store for a write command.
pub enum QueryPlan<'a> {
    /// Writes; there may be none, which still moves the region's index on.
    Write { cmds: WriteCmds<'a>, header: RaftCmdHeader },
    /// Sorted files to ingest.
    Ingest { ssts: Vec<SstMetaInfo>, header: RaftCmdHeader },
}

/// What has to be handed to the engine store for a write command that was executed.
pub open spec fn is_query_plan(plan: QueryPlan, region_id: u64, cmd: Cmd) -> bool {
    let h = RaftCmdHeader { region_id, index: cmd.index, term: cmd.term };
    let reqs = cmd.request.requests@;
    match plan {
        QueryPlan::Write { cmds, header } => {
            &&& header == h
            &&& cmd.response.has_error || ssts_of(reqs).len() == 0
            &&& cmds@ == (if cmd.response.has_error {
                Seq::empty()
            } else {
                writes_of(reqs)
            })
        },
        QueryPlan::Ingest { ssts, header } => {
            &&& header == h
            &&& !cmd.response.has_error && ssts_of(reqs).len() > 0
            &&& unsized_views(ssts@) == ssts_of(reqs)
            &&& forall|i: int|
                0 <= i < ssts@.len() ==> (#[trigger] ssts@[i]).total_bytes == 0
                    && ssts@[i].total_kvs == 0
        },
    }
}

/// What is handed to the engine store for a write command that was executed. A command that
/// failed is passed on without its writes.
pub fn plan_query<'a>(region_id: u64, cmd: &'a Cmd) -> (r: QueryPlan<'a>)
    requires
        cmd.response.has_error || requests_fit(cmd.request.requests@),
    ensures
        is_query_plan(r, region_id, *cmd),
{
    let header = RaftCmdHeader::new(region_id, cmd.index, cmd.term);
    if cmd.response.has_error {
        return QueryPlan::Write { cmds: WriteCmds::new(), header };
    }
    let reqs = &cmd.request.requests;
    let n: usize = reqs.len();
    let mut ssts: Vec<SstMetaInfo> = Vec::new();
    let mut cmds: WriteCmds<'a> = WriteCmds::with_capacity(n);
    let mut i: usize = 0;
    let ghost q = reqs@;
    assert(q.take(0) =~= Seq::empty());
    assert(unsized_views(ssts@) =~= Seq::empty());
    while i < n
        invariant
            i <= n,
            n == q.len(),
            q == reqs@,
            forall|j: int| 0 <= j < q.len() ==> request_fits(#[trigger] q[j]),
            cmds@ == writes_of(q.take(i as int)),
            unsized_views(ssts@) == ssts_of(q.take(i as int)),
            forall|j: int|
                0 <= j < ssts@.len() ==> (#[trigger] ssts@[j]).total_bytes == 0
                    && ssts@[j].total_kvs == 0,
        decreases n - i,
    {
        let ghost done = q.take(i as int);
        proof {
            assert(q.take(i + 1).drop_last() =~= done);
            assert(q.take(i + 1).last() == q[i as int]);
            assert(request_fits(q[i as int]));
        }
        match &reqs[i] {
            Request::Put { cf, key, value } => {
                let cf: u8 = ffi::name_to_cf(cf.as_str()).into();
                cmds.push(key.as_slice(), value.as_slice(), WriteCmdType::Put, cf);
            },
            Request::Delete { cf, key } => {
                let cf: u8 = ffi::name_to_cf(cf.as_str()).into();
                let nothing = slice_subrange(key.as_slice(), 0, 0);
                assert(nothing@ =~= Seq::empty());
                cmds.push(key.as_slice(), nothing, WriteCmdType::Del, cf);
            },
            Request::IngestSst { sst } => {
                let ghost before = ssts@;
                ssts.push(SstMetaInfo { total_bytes: 0, total_kvs: 0, meta: sst.clone() });
                assert(unsized_views(ssts@) =~= unsized_views(before).push(sst@));
            },
            _ => {},
        }
        i = i + 1;
    }
    assert(q.take(n as int) =~= q);
    assert(unsized_views(ssts@).len() == ssts@.len());
    if ssts.len() > 0 {
        QueryPlan::Ingest { ssts, header }
    } else {
        QueryPlan::Write { cmds, header }
    }
}

/// Whether the region's state is made durable after writes: only where the engine store asks
/// for it and the replica stays.
pub fn write_persists(res: EngineStoreApplyRes, region_state: &RegionState) -> (r: bool)
    ensures
        r == (res == EngineStoreApplyRes::Persist && !region_state.pending_remove),
{
    match res {
        EngineStoreApplyRes::NoPersist => false,
        EngineStoreApplyRes::Persist => !region_state.pending_remove,
        EngineStoreApplyRes::NotFound => false,
    }
}

/// A sorted file of a command, with what was found out about it: whether the region may take
/// it, and where it lies.
pub struct SstCheck {
    pub valid: bool,
    pub path: String,
}

/// How many sorted files come before the first one that the region may not take.
pub open spec fn valid_prefix(checks: Seq<SstCheck>) -> int
    decreases checks.len(),
{
    if checks.len() == 0 {
        0
    } else {
        let p = valid_prefix(checks.drop_last());
        if p == checks.len() - 1 && checks.last().valid {
            checks.len() as int
        } else {
            p
        }
    }
}

/// The first file that the region may not take stands right after the prefix.
pub proof fn valid_prefix_is(checks: Seq<SstCheck>, n: int)
    requires
        0 <= n <= checks.len(),
        forall|i: int| 0 <= i < n ==> (#[trigger] checks[i]).valid,
        n < checks.len() ==> !checks[n].valid,
    ensures
        valid_prefix(checks) == n,
    decreases checks.len(),
{
    if checks.len() > 0 {
        let p = checks.drop_last();
        assert(forall|i: int| 0 <= i < p.len() ==> p[i] == checks[i]);
        if n == checks.len() {
            valid_prefix_is(p, n - 1);
            assert(checks[n - 1].valid);
        } else {
            valid_prefix_is(p, n);
            if n == p.len() {
                assert(checks.last() == checks[n]);
            }
        }
    }
}

/// The files that are handed to the engine store: where they lie and their column family.
pub open spec fn sst_paths(ssts: Seq<SstMetaInfo>, checks: Seq<SstCheck>) -> Seq<
    (Seq<char>, ColumnFamilyType),
> {
    Seq::new(
        valid_prefix(checks) as nat,
        |i: int| (checks[i].path@, WriteCmdCf::of_name(ssts[i].meta.cf_name@)->0),
    )
}

/// The views of a list of paths.
pub open spec fn path_views(v: Seq<(String, ColumnFamilyType)>) -> Seq<
    (Seq<char>, ColumnFamilyType),
> {
    Seq::new(v.len(), |i: int| (v[i].0@, v[i].1))
}

/// The files that are handed to the engine store: those before the first one that the region
/// may not take. Files of the lock column family are not ingested.
pub fn handle_ingest_sst_for_engine_store(
    ssts: &Vec<SstMetaInfo>,
    checks: &Vec<SstCheck>,
) -> (r: Vec<(String, ColumnFamilyType)>)
    requires
        ssts@.len() == checks@.len(),
        forall|i: int|
            0 <= i <= valid_prefix(checks@) && i < ssts@.len() ==> (
            #[trigger] ssts@[i]).meta.cf_name@ != "lock"@,
        forall|i: int|
            0 <= i < valid_prefix(checks@) && i < ssts@.len() ==> WriteCmdCf::of_name(
                (#[trigger] ssts@[i]).meta.cf_name@,
            ) is Some,
    ensures
        path_views(r@) == sst_paths(ssts@, checks@),
{
    let n: usize = checks.len();
    let mut r: Vec<(String, ColumnFamilyType)> = Vec::new();
    let mut i: usize = 0;
    let ghost c = checks@;
    while i < n && checks[i].valid
        invariant
            i <= n,
            n == c.len(),
            c == checks@,
            n == ssts@.len(),
            forall|j: int| 0 <= j < i ==> (#[trigger] c[j]).valid,
            forall|j: int|
                0 <= j < valid_prefix(c) && j < ssts@.len() ==> WriteCmdCf::of_name(
                    (#[trigger] ssts@[j]).meta.cf_name@,
                ) is Some,
            r@.len() == i,
            forall|j: int|
                0 <= j < i ==> (#[trigger] r@[j]).0@ == c[j].path@ && Some(r@[j].1)
                    == WriteCmdCf::of_name(ssts@[j].meta.cf_name@),
        ensures
            i <= n,
            i < n ==> !c[i as int].valid,
        decreases n - i,
    {
        assert(i < valid_prefix(c)) by {
            let m = first_invalid(c, i as int + 1);
            valid_prefix_is(c, m);
        }
        assert(WriteCmdCf::of_name(ssts@[i as int].meta.cf_name@) is Some);
        let cf = ffi::name_to_cf(ssts[i].meta.cf_name.as_str());
        r.push((checks[i].path.clone(), cf));
        i = i + 1;
    }
    proof {
        valid_prefix_is(c, i as int);
        assert(path_views(r@) =~= sst_paths(ssts@, c));
    }
    r
}

proof fn first_invalid(c: Seq<SstCheck>, i: int) -> (n: int)
    requires
        0 <= i <= c.len(),
        forall|j: int| 0 <= j < i ==> (#[trigger] c[j]).valid,
    ensures
        i <= n <= c.len(),
        forall|j: int| 0 <= j < n ==> (#[trigger] c[j]).valid,
        n < c.len() ==> !c[n].valid,
    decreases c.len() - i,
{
    if i < c.len() && c[i].valid {
        first_invalid(c, i + 1)
    } else {
        i
    }
}

/// The files of one region among some files.
pub open spec fn of_region(v: Seq<SstMetaInfo>, region_id: u64) -> Seq<SstMetaInfo> {
    v.filter(|x: SstMetaInfo| x.meta.region_id == region_id)
}

/// The files of other regions among some files.
pub open spec fn not_of_region(v: Seq<SstMetaInfo>, region_id: u64) -> Seq<SstMetaInfo> {
    v.filter(|x: SstMetaInfo| x.meta.region_id != region_id)
}

/// Takes the files of a region out of some files; both keep their order.
pub fn drain_region(v: &mut Vec<SstMetaInfo>, region_id: u64) -> (r: Vec<SstMetaInfo>)
    ensures
        r@ == of_region(old(v)@, region_id),
        final(v)@ == not_of_region(old(v)@, region_id),
{
    let ghost s = v@;
    let mut all: Vec<SstMetaInfo> = Vec::new();
    std::mem::swap(&mut all, v);
    let mut out: Vec<SstMetaInfo> = Vec::new();
    let n: usize = all.len();
    let mut i: usize = 0;
    let ghost yes = |x: SstMetaInfo| x.meta.region_id == region_id;
    let ghost no = |x: SstMetaInfo| x.meta.region_id != region_id;
    assert(s.take(0) =~= Seq::empty());
    assert(all@ =~= s.skip(0));
    reveal(Seq::filter);
    assert(v@ =~= s.take(0).filter(no));
    assert(out@ =~= s.take(0).filter(yes));
    while i < n
        invariant
            i <= n,
            n == s.len(),
            all@ == s.skip(i as int),
            yes == (|x: SstMetaInfo| x.meta.region_id == region_id),
            no == (|x: SstMetaInfo| x.meta.region_id != region_id),
            out@ == s.take(i as int).filter(yes),
            v@ == s.take(i as int).filter(no),
        decreases n - i,
    {
        let x = all.remove(0);
        proof {
            assert(x == s[i as int]);
            assert(s.take(i + 1).drop_last() =~= s.take(i as int));
            assert(s.take(i + 1).last() == x);
            assert(s.skip(i as int).remove(0) =~= s.skip(i + 1));
            reveal(Seq::filter);
        }
        if x.meta.region_id == region_id {
            out.push(x);
        } else {
            v.push(x);
        }
        i = i + 1;
    }
    assert(s.take(n as int) =~= s);
    out
}

/// What becomes of the sorted files once the engine store has answered to an ingestion.
pub open spec fn ingest_finished(
    kept: Seq<SstMetaInfo>,
    kept_after: Seq<SstMetaInfo>,
    ctx: ApplyCtxInfo,
    ctx_after: ApplyCtxInfo,
    region_id: u64,
    res: EngineStoreApplyRes,
) -> bool {
    match ctx.pending_handle_ssts {
        None => {
            &&& kept_after == kept
            &&& ctx_after.delete_ssts@ == ctx.delete_ssts@
            &&& ctx_after.pending_handle_ssts is None
        },
        Some(v) => {
            &&& ctx_after.pending_handle_ssts is Some
            &&& ctx_after.pending_handle_ssts->0@.len() == 0
            &&& if res == EngineStoreApplyRes::NoPersist {
                &&& kept_after == kept + v@
                &&& ctx_after.delete_ssts@ == ctx.delete_ssts@
            } else {
                &&& kept_after == not_of_region(kept, region_id)
                &&& ctx_after.delete_ssts@ == ctx.delete_ssts@ + of_region(kept, region_id) + v@
            }
        },
    }
}

/// Does what the engine store's answer to an ingestion calls for, and says whether the
/// region's state is made durable. Where the engine store did not take the files for good,
/// they are kept from being deleted, so that they can be ingested again; otherwise they and
/// those kept earlier for the region can be deleted.
pub fn finish_ingest(
    pending_delete_ssts: &mut Vec<SstMetaInfo>,
    ctx: &mut ApplyCtxInfo,
    region_id: u64,
    res: EngineStoreApplyRes,
    region_state: &RegionState,
) -> (r: bool)
    ensures
        r == (res != EngineStoreApplyRes::NoPersist && !region_state.pending_remove),
        ingest_finished(
            old(pending_delete_ssts)@,
            final(pending_delete_ssts)@,
            *old(ctx),
            *final(ctx),
            region_id,
            res,
        ),
{
    let handled = match ctx.pending_handle_ssts.take() {
        None => return res != EngineStoreApplyRes::NoPersist && !region_state.pending_remove,
        Some(v) => v,
    };
    let mut v = handled;
    let persist = match res {
        EngineStoreApplyRes::NoPersist => {
            pending_delete_ssts.append(&mut v);
            false
        },
        _ => {
            let mut sst_in_region = drain_region(pending_delete_ssts, region_id);
            ctx.delete_ssts.append(&mut sst_in_region);
            ctx.delete_ssts.append(&mut v);
            !region_state.pending_remove
        },
    };
    ctx.pending_handle_ssts = Some(v);
    persist
}

/// What is handed to the engine store for an administrative command.
pub enum AdminPlan {
    /// Nothing but the command's place: it failed.
    Failed { header: RaftCmdHeader },
    /// The command and its result.
    Admin { request: AdminRequest, response: AdminResponse, header: RaftCmdHeader },
}

/// Whether a command is a step of a merge.
pub open spec fn is_merge(t: AdminCmdType) -> bool {
    t == AdminCmdType::CommitMerge || t == AdminCmdType::PrepareMerge || t
        == AdminCmdType::RollbackMerge
}

/// What has to be handed to the engine store for an administrative command that was executed.
pub open spec fn is_admin_plan(
    plan: AdminPlan,
    region_id: u64,
    cmd: Cmd,
    region_state: RegionState,
) -> bool {
    let h = RaftCmdHeader { region_id, index: cmd.index, term: cmd.term };
    match plan {
        AdminPlan::Failed { header } => cmd.response.has_error && header == h,
        AdminPlan::Admin { request, response, header } => {
            &&& !cmd.response.has_error
            &&& header == h
            &&& request@ == cmd.request.admin_view()
            &&& response@ == (if is_merge(cmd.request.admin_type()) {
                AdminResponseView {
                    split_left: region_state.modified_region->0@,
                    ..AdminResponseView::spec_default()
                }
            } else {
                cmd.response.admin_response@
            })
        },
    }
}

/// What is handed to the engine store for an administrative command that was executed: the
/// command itself, and its result. For a step of a merge, the region that it changed stands in for the result.
pub fn plan_admin(region_id: u64, cmd: &Cmd, region_state: &RegionState) -> (r: AdminPlan)
    requires
        !cmd.response.has_error && is_merge(cmd.request.admin_type())
            ==> region_state.modified_region is Some,
    ensures
        is_admin_plan(r, region_id, *cmd, *region_state),
{
    let header = RaftCmdHeader::new(region_id, cmd.index, cmd.term);
    if cmd.response.has_error {
        return AdminPlan::Failed { header };
    }
    let request = cmd.request.get_admin_request();
    match request.cmd_type {
        AdminCmdType::CommitMerge | AdminCmdType::PrepareMerge | AdminCmdType::RollbackMerge => {
            let mut r = AdminResponse::default();
            match &region_state.modified_region {
                Some(region) => {
                    r.split_left = region.clone();
                },
                None => {},
            }
            AdminPlan::Admin { request, response: r, header }
        },
        _ => AdminPlan::Admin {
            request,
            response: cmd.response.admin_response.clone(),
            header,
        },
    }
}

/// Whether the region's state is made durable after an administrative command: unless the
/// engine store wants to wait, or the replica is about to be removed.
pub fn admin_persists(res: EngineStoreApplyRes, region_state: &RegionState) -> (r: bool)
    ensures
        r == (res != EngineStoreApplyRes::NoPersist && !region_state.pending_remove),
{
    match res {
        EngineStoreApplyRes::NoPersist => false,
        EngineStoreApplyRes::Persist => !region_state.pending_remove,
        EngineStoreApplyRes::NotFound => !region_state.pending_remove,
    }
}

/// A request to the engine store to flush a region.
#[derive(Clone, Copy, Debug, PartialEq, Eq, Structural)]
pub struct FlushRequest {
    pub region_id: u64,
    /// Whether the region is flushed though the engine store sees no need.
    pub force_persist: bool,
    /// Whether the engine store goes on until the region is flushed.
    pub try_until_succeed: bool,
    /// The place in the log of the command that needs the flush.
    pub index: u64,
    pub term: u64,
}

/// What has to happen before an administrative command is executed.
#[derive(Clone, Copy, Debug, PartialEq, Eq, Structural)]
pub enum PreExecAdmin {
    /// The region has to be flushed; `after_flush` then says whether the command is left out.
    TryFlush(FlushRequest),
    /// It is known whether the command is left out.
    Filter(bool),
}

/// What has to happen before an administrative command at a place in the log of a region:
/// cutting off the log needs a flush first, which is tried once and may be refused; the commands
/// that the engine store cannot take are left out.
pub open spec fn before_admin(
    region_id: u64,
    cmd_type: AdminCmdType,
    index: u64,
    term: u64,
) -> PreExecAdmin {
    match cmd_type {
        AdminCmdType::CompactLog => PreExecAdmin::TryFlush(
            FlushRequest {
                region_id,
                force_persist: false,
                try_until_succeed: false,
                index,
                term,
            },
        ),
        AdminCmdType::ComputeHash | AdminCmdType::VerifyHash | AdminCmdType::TransferLeader =>
            PreExecAdmin::Filter(true),
        _ => PreExecAdmin::Filter(false),
    }
}

/// What has to happen before an administrative command is executed.
pub fn pre_exec_admin(region_id: u64, cmd_type: AdminCmdType, index: u64, term: u64) -> (r:
    PreExecAdmin)
    ensures
        r == before_admin(region_id, cmd_type, index, term),
{
    match cmd_type {
        AdminCmdType::CompactLog => PreExecAdmin::TryFlush(
            FlushRequest {
                region_id,
                force_persist: false,
                try_until_succeed: false,
                index,
                term,
            },
        ),
        AdminCmdType::ComputeHash | AdminCmdType::VerifyHash => PreExecAdmin::Filter(true),
        AdminCmdType::TransferLeader => PreExecAdmin::Filter(true),
        _ => PreExecAdmin::Filter(false),
    }
}

/// Whether cutting off the log is left out, given whether the flush before it succeeded.
pub fn after_flush(flushed: bool) -> (r: bool)
    ensures
        r == !flushed,
{
    !flushed
}

/// Whether the state of a region may be made durable now: after the last command of a batch,
/// and after the steps of a merge that need the latest index.
pub fn pre_persist(is_finished: bool, cmd: Option<&RaftCmdRequest>) -> (r: bool)
    requires
        is_finished || cmd is Some,
    ensures
        r == (is_finished || cmd->0.admin_type() == AdminCmdType::CommitMerge
            || cmd->0.admin_type() == AdminCmdType::RollbackMerge),
{
    if is_finished {
        return true;
    }
    match cmd.unwrap().get_admin_type() {
        AdminCmdType::CommitMerge | AdminCmdType::RollbackMerge => true,
        _ => false,
    }
}

proof fn filter_parts(v: Seq<SstMetaInfo>, region_id: u64)
    ensures
        of_region(v, region_id).to_multiset().add(not_of_region(v, region_id).to_multiset())
            =~= v.to_multiset(),
    decreases v.len(),
{
    broadcast use vstd::seq_lib::group_to_multiset_ensures;

    reveal(Seq::filter);
    if v.len() > 0 {
        let p = v.drop_last();
        filter_parts(p, region_id);
        assert(v =~= p.push(v.last()));
    }
}

/// No sorted file is lost or doubled by an ingestion: those that are kept and those that can
/// be deleted are together what they were before, and the files of the command.
pub proof fn no_sst_lost(
    kept: Seq<SstMetaInfo>,
    kept_after: Seq<SstMetaInfo>,
    ctx: ApplyCtxInfo,
    ctx_after: ApplyCtxInfo,
    region_id: u64,
    res: EngineStoreApplyRes,
)
    requires
        ingest_finished(kept, kept_after, ctx, ctx_after, region_id, res),
    ensures
        kept_after.to_multiset().add(ctx_after.delete_ssts@.to_multiset())
            =~= kept.to_multiset().add(ctx.delete_ssts@.to_multiset()).add(
            match ctx.pending_handle_ssts {
                Some(v) => v@.to_multiset(),
                None => vstd::multiset::Multiset::empty(),
            },
        ),
{
    broadcast use vstd::seq_lib::group_to_multiset_ensures;

    filter_parts(kept, region_id);
    match ctx.pending_handle_ssts {
        Some(v) => {
            vstd::seq_lib::lemma_multiset_commutative(kept, v@);
            let a = ctx.delete_ssts@;
            let b = of_region(kept, region_id);
            vstd::seq_lib::lemma_multiset_commutative(a, b);
            vstd::seq_lib::lemma_multiset_commutative(a + b, v@);
        },
        None => {},
    }
}

} // verus!
