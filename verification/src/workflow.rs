//! The entry-retrieval workflows: fetch an entry with its metadata (local
//! shard first, network second) and accumulate an entry's history by
//! following crud links.
//!
//! These workflows suspend at their I/O boundaries, so the library holds
//! their decision logic: what to fetch next and how each fetched entry
//! changes the accumulated result. The loop that performs the lookups runs
//! outside and feeds every outcome back in.

use vstd::prelude::*;

verus! {

/// The lifecycle status an entry carries in its metadata.
#[derive(Debug, Clone, Copy, PartialEq, Eq, Structural)]
pub enum CrudStatus {
    Live,
    Rejected,
    Deleted,
    Modified,
    Locked,
}

/// An entry together with its metadata: content, status, and the optional
/// link to the entry that superseded it.
#[derive(Debug, Clone, PartialEq, Eq)]
pub struct EntryWithMeta {
    pub entry: String,
    pub crud_status: CrudStatus,
    pub maybe_crud_link: Option<String>,
}

/// How much history a caller asks for.
#[derive(Debug, Clone, Copy, PartialEq, Eq, Structural)]
pub enum StatusRequestKind {
    Initial,
    Latest,
    All,
}

/// The options of an entry request.
#[derive(Debug, Clone, Copy, PartialEq, Eq, Structural)]
pub struct GetEntryOptions {
    pub status_request: StatusRequestKind,
    pub sources: bool,
    pub header: bool,
}

/// An entry request: the address asked for and the options.
#[derive(Debug, Clone, PartialEq, Eq)]
pub struct GetEntryArgs {
    pub address: String,
    pub options: GetEntryOptions,
}

/// The accumulated answer to an entry request.
#[derive(Debug, PartialEq, Eq)]
pub struct GetEntryResult {
    pub status_request: StatusRequestKind,
    pub entries: Vec<EntryWithMeta>,
}

/// Where the entry-with-meta workflow goes after the local lookup: a local
/// hit answers at once, a miss falls back to the network.
#[derive(Debug, PartialEq, Eq)]
pub enum LookupOutcome {
    Found(EntryWithMeta),
    FetchNetwork,
}

/// The fetch-an-entry workflow, at its one decision point: try the local
/// shard first; only a miss goes on to the network.
pub fn get_entry_with_meta_workflow(local: Option<EntryWithMeta>) -> (r: LookupOutcome)
    ensures
        local matches Some(e) ==> r == LookupOutcome::Found(e),
        local is None ==> r == LookupOutcome::FetchNetwork,
{
    match local {
        Some(e) => LookupOutcome::Found(e),
        None => LookupOutcome::FetchNetwork,
    }
}

/// The running state of the history-accumulating workflow: what has been
/// gathered and which address to fetch next; `None` means the workflow is
/// done.
#[derive(Debug, PartialEq, Eq)]
pub struct GetEntryState {
    pub result: GetEntryResult,
    pub next_address: Option<String>,
}

/// Start the history-accumulating workflow. Source and header reporting are
/// not offered: a request that asks for them is rejected, and exactly then.
pub fn get_entry_result_workflow(args: &GetEntryArgs) -> (r: Result<GetEntryState, String>)
    ensures
        r is Ok <==> !args.options.sources && !args.options.header,
        r matches Ok(st) ==> {
            &&& st.result.status_request == args.options.status_request
            &&& st.result.entries@ == Seq::<EntryWithMeta>::empty()
            &&& st.next_address matches Some(a) && a@ == args.address@
        },
{
    if args.options.sources || args.options.header {
        return Err(String::from_str("sources and header option not implemented"));
    }
    let st = GetEntryState {
        result: GetEntryResult {
            status_request: args.options.status_request,
            entries: Vec::new(),
        },
        next_address: Some(args.address.clone()),
    };
    proof {
        assert(st.result.entries@ =~= Seq::<EntryWithMeta>::empty());
    }
    Ok(st)
}

/// One round of the history-accumulating workflow, fed with what the fetch
/// of the pending address returned. A missing entry ends the walk. Under
/// `Latest`, a deleted entry erases the gathered history and ends it.
/// Otherwise the entry is recorded; the walk follows the entry's crud link
/// unless the request wanted only the initial entry or the entry is deleted.
pub fn get_entry_result_step(st: GetEntryState, fetched: Option<EntryWithMeta>) -> (r:
    GetEntryState)
    requires
        st.next_address is Some,
    ensures
        r.result.status_request == st.result.status_request,
        fetched is None ==> r.next_address is None && r.result.entries@
            == st.result.entries@,
        fetched matches Some(e) ==> {
            if st.result.status_request == StatusRequestKind::Latest && e.crud_status
                == CrudStatus::Deleted {
                &&& r.result.entries@ == Seq::<EntryWithMeta>::empty()
                &&& r.next_address is None
            } else {
                &&& r.result.entries@ == st.result.entries@.push(e)
                &&& r.next_address == (if st.result.status_request
                    != StatusRequestKind::Initial && e.crud_status != CrudStatus::Deleted {
                    e.maybe_crud_link
                } else {
                    Option::<String>::None
                })
            }
        },
{
    let GetEntryState { result, next_address: _ } = st;
    let mut result = result;
    match fetched {
        None => GetEntryState { result, next_address: None },
        Some(e) => {
            if result.status_request == StatusRequestKind::Latest && e.crud_status
                == CrudStatus::Deleted {
                result.entries = Vec::new();
                proof {
                    assert(result.entries@ =~= Seq::<EntryWithMeta>::empty());
                }
                return GetEntryState { result, next_address: None };
            }
            let follow = result.status_request != StatusRequestKind::Initial && e.crud_status
                != CrudStatus::Deleted;
            let next: Option<String> = if follow {
                match &e.maybe_crud_link {
                    Some(a) => Some(a.clone()),
                    None => None,
                }
            } else {
                None
            };
            result.entries.push(e);
            GetEntryState { result, next_address: next }
        },
    }
}

} // verus!
