use vstd::prelude::*;

verus! {

/// A point in time as the remote calendar's wire format carries it.
#[derive(Debug)]
pub struct DateTime {
    pub date_time: String,
}

#[verifier::ext_equal]
pub ghost struct DateTimeV {
    pub date_time: Seq<char>,
}

impl View for DateTime {
    type V = DateTimeV;

    open spec fn view(&self) -> DateTimeV {
        DateTimeV { date_time: self.date_time@ }
    }
}

impl DeepView for DateTime {
    type V = DateTimeV;

    open spec fn deep_view(&self) -> DateTimeV {
        self.view()
    }
}

/// A remote calendar entry as the wire format carries it. A `status` of
/// "cancelled" marks a tombstone; the time fields then hold empty text.
#[derive(Debug)]
pub struct GoogleEvent {
    pub id: String,
    pub status: Option<String>,
    pub color_id: Option<String>,
    pub summary: Option<String>,
    pub start: DateTime,
    pub end: DateTime,
}

#[verifier::ext_equal]
pub ghost struct GoogleEventV {
    pub id: Seq<char>,
    pub status: Option<Seq<char>>,
    pub color_id: Option<Seq<char>>,
    pub summary: Option<Seq<char>>,
    pub start: DateTimeV,
    pub end: DateTimeV,
}

impl View for GoogleEvent {
    type V = GoogleEventV;

    open spec fn view(&self) -> GoogleEventV {
        GoogleEventV {
            id: self.id@,
            status: self.status.deep_view(),
            color_id: self.color_id.deep_view(),
            summary: self.summary.deep_view(),
            start: self.start@,
            end: self.end@,
        }
    }
}

impl DeepView for GoogleEvent {
    type V = GoogleEventV;

    open spec fn deep_view(&self) -> GoogleEventV {
        self.view()
    }
}

/// One page of the remote delta feed: the items and the cursor to resume
/// from next time.
#[derive(Debug, Clone)]
pub struct EventsListResp {
    pub next_sync_token: String,
    pub items: Vec<GoogleEvent>,
}

/// What the remote push-subscription endpoint answers at creation.
#[derive(Debug, Clone)]
pub struct GoogleWebhookResp {
    pub resource_id: String,
    pub expiration: String,
}

/// A cached remote event, reduced to the plain values the reconciler
/// reads: identity, the time range in unix seconds, and the optional
/// decorations.
#[derive(Debug)]
pub struct RemoteEvent {
    pub id: String,
    pub start: u64,
    pub end: u64,
    pub summary: Option<String>,
    pub description: Option<String>,
    pub color_id: Option<String>,
}

#[verifier::ext_equal]
pub ghost struct RemoteEventV {
    pub id: Seq<char>,
    pub start: u64,
    pub end: u64,
    pub summary: Option<Seq<char>>,
    pub description: Option<Seq<char>>,
    pub color_id: Option<Seq<char>>,
}

impl View for RemoteEvent {
    type V = RemoteEventV;

    open spec fn view(&self) -> RemoteEventV {
        RemoteEventV {
            id: self.id@,
            start: self.start,
            end: self.end,
            summary: self.summary.deep_view(),
            description: self.description.deep_view(),
            color_id: self.color_id.deep_view(),
        }
    }
}

impl DeepView for RemoteEvent {
    type V = RemoteEventV;

    open spec fn deep_view(&self) -> RemoteEventV {
        self.view()
    }
}

/// One reconciliation input: an upsert carrying the full event, or a
/// tombstone carrying only the departed id.
#[derive(Debug)]
pub enum RemoteItem {
    Upsert(RemoteEvent),
    Tombstone(String),
}

#[verifier::ext_equal]
pub ghost enum RemoteItemV {
    Upsert(RemoteEventV),
    Tombstone(Seq<char>),
}

impl View for RemoteItem {
    type V = RemoteItemV;

    open spec fn view(&self) -> RemoteItemV {
        match self {
            RemoteItem::Upsert(e) => RemoteItemV::Upsert(e@),
            RemoteItem::Tombstone(id) => RemoteItemV::Tombstone(id@),
        }
    }
}

impl DeepView for RemoteItem {
    type V = RemoteItemV;

    open spec fn deep_view(&self) -> RemoteItemV {
        self.view()
    }
}

impl Clone for DateTime {
    fn clone(&self) -> (res: Self)
        ensures
            res@ == self@,
    {
        DateTime { date_time: self.date_time.clone() }
    }
}

impl Clone for GoogleEvent {
    fn clone(&self) -> (res: Self)
        ensures
            res@ == self@,
    {
        GoogleEvent {
            id: self.id.clone(),
            status: crate::entities::clone_opt_string(&self.status),
            color_id: crate::entities::clone_opt_string(&self.color_id),
            summary: crate::entities::clone_opt_string(&self.summary),
            start: self.start.clone(),
            end: self.end.clone(),
        }
    }
}

impl Clone for RemoteEvent {
    fn clone(&self) -> (res: Self)
        ensures
            res@ == self@,
    {
        RemoteEvent {
            id: self.id.clone(),
            start: self.start,
            end: self.end,
            summary: crate::entities::clone_opt_string(&self.summary),
            description: crate::entities::clone_opt_string(&self.description),
            color_id: crate::entities::clone_opt_string(&self.color_id),
        }
    }
}

impl Clone for RemoteItem {
    fn clone(&self) -> (res: Self)
        ensures
            res@ == self@,
    {
        match self {
            RemoteItem::Upsert(e) => RemoteItem::Upsert(e.clone()),
            RemoteItem::Tombstone(id) => RemoteItem::Tombstone(id.clone()),
        }
    }
}

/// Duplicates a cached event list.
pub fn clone_remote_events(v: &Vec<RemoteEvent>) -> (r: Vec<RemoteEvent>)
    ensures
        r.deep_view() == v.deep_view(),
{
    let mut out: Vec<RemoteEvent> = Vec::new();
    let mut i: usize = 0;
    while i < v.len()
        invariant
            i <= v@.len(),
            out.deep_view() == v.deep_view().take(i as int),
        decreases v@.len() - i,
    {
        let ghost pre = out@;
        let ghost predv = out.deep_view();
        proof {
            assert(predv == v.deep_view().take(i as int));
            assert(predv.len() == i);
            assert(pre.len() == i);
        }
        let x = v[i].clone();
        assert(x.deep_view() == v.deep_view()[i as int]);
        out.push(x);
        proof {
            assert(out@ == pre.push(x));
            assert(out@.len() == i + 1);
            assert(forall|j: int| 0 <= j < i ==> out@[j] == pre[j]);
            assert(forall|j: int| 0 <= j < i ==> predv[j] == pre[j].deep_view());
            assert(forall|j: int|
                0 <= j < i + 1 ==> out.deep_view()[j] == out@[j].deep_view());
            assert(forall|j: int|
                0 <= j < i ==> out.deep_view()[j] == v.deep_view().take(i as int)[j]);
            assert(out.deep_view()[i as int] == x.deep_view());
            assert(out.deep_view() =~= v.deep_view().take(i as int + 1));
        }
        i = i + 1;
    }
    proof {
        assert(v.deep_view().take(v@.len() as int) =~= v.deep_view());
    }
    out
}

} // verus!
