use vstd::prelude::*;

verus! {

/// A patient record. Names must be unique among patients, compared
/// case-insensitively; the store enforces this on creation and rename.
#[derive(Debug)]
pub struct Patient {
    pub uuid: String,
    pub description: String,
    pub age: Option<u8>,
    pub name: String,
    pub address: String,
    pub profile_picture: Option<String>,
    pub created_at: u64,
    pub last_updated: u64,
}

#[verifier::ext_equal]
pub ghost struct PatientV {
    pub uuid: Seq<char>,
    pub description: Seq<char>,
    pub age: Option<u8>,
    pub name: Seq<char>,
    pub address: Seq<char>,
    pub profile_picture: Option<Seq<char>>,
    pub created_at: u64,
    pub last_updated: u64,
}

impl View for Patient {
    type V = PatientV;

    open spec fn view(&self) -> PatientV {
        PatientV {
            uuid: self.uuid@,
            description: self.description@,
            age: self.age,
            name: self.name@,
            address: self.address@,
            profile_picture: self.profile_picture.deep_view(),
            created_at: self.created_at,
            last_updated: self.last_updated,
        }
    }
}

impl DeepView for Patient {
    type V = PatientV;

    open spec fn deep_view(&self) -> PatientV {
        self.view()
    }
}

/// One emotion entry of a session. The order of a session's emotions is
/// presentation-significant and is preserved exactly.
#[derive(Debug)]
pub struct Emotion {
    pub uuid: String,
    pub id: Option<u8>,
    pub kind: Option<u8>,
    pub aquired_age: Option<u8>,
    pub aquired_person: String,
    pub created_at: u64,
}

#[verifier::ext_equal]
pub ghost struct EmotionV {
    pub uuid: Seq<char>,
    pub id: Option<u8>,
    pub kind: Option<u8>,
    pub aquired_age: Option<u8>,
    pub aquired_person: Seq<char>,
    pub created_at: u64,
}

impl View for Emotion {
    type V = EmotionV;

    open spec fn view(&self) -> EmotionV {
        EmotionV {
            uuid: self.uuid@,
            id: self.id,
            kind: self.kind,
            aquired_age: self.aquired_age,
            aquired_person: self.aquired_person@,
            created_at: self.created_at,
        }
    }
}

impl DeepView for Emotion {
    type V = EmotionV;

    open spec fn deep_view(&self) -> EmotionV {
        self.view()
    }
}

/// A tag on a session's sparse timeline.
#[derive(Debug)]
pub enum TimelineEvent {
    SessionStart,
    SessionEnd,
    EmotionAdded(String),
    EmotionRemoved(String),
}

#[verifier::ext_equal]
pub ghost enum TimelineEventV {
    SessionStart,
    SessionEnd,
    EmotionAdded(Seq<char>),
    EmotionRemoved(Seq<char>),
}

impl View for TimelineEvent {
    type V = TimelineEventV;

    open spec fn view(&self) -> TimelineEventV {
        match self {
            TimelineEvent::SessionStart => TimelineEventV::SessionStart,
            TimelineEvent::SessionEnd => TimelineEventV::SessionEnd,
            TimelineEvent::EmotionAdded(s) => TimelineEventV::EmotionAdded(s@),
            TimelineEvent::EmotionRemoved(s) => TimelineEventV::EmotionRemoved(s@),
        }
    }
}

impl DeepView for TimelineEvent {
    type V = TimelineEventV;

    open spec fn deep_view(&self) -> TimelineEventV {
        self.view()
    }
}

/// A therapy session. `patient_uuid` references an existing patient at
/// creation time; after a patient delete, its sessions are cascade-deleted.
/// `paid` is an amount in minor currency units.
/// `calendar_ids` maps an account's email to the id of the calendar entry
/// that mirrors this session in that account's external calendar; the keys
/// are unique.
#[derive(Debug)]
pub struct Session {
    pub uuid: String,
    pub patient_uuid: String,
    pub start: u64,
    pub end: u64,
    pub paid: u64,
    pub emotions: Vec<Emotion>,
    pub timeline: Vec<(u64, TimelineEvent)>,
    pub created_at: u64,
    pub last_updated: u64,
    pub calendar_ids: Vec<(String, String)>,
}

#[verifier::ext_equal]
pub ghost struct SessionV {
    pub uuid: Seq<char>,
    pub patient_uuid: Seq<char>,
    pub start: u64,
    pub end: u64,
    pub paid: u64,
    pub emotions: Seq<EmotionV>,
    pub timeline: Seq<(u64, TimelineEventV)>,
    pub created_at: u64,
    pub last_updated: u64,
    pub calendar_ids: Seq<(Seq<char>, Seq<char>)>,
}

impl View for Session {
    type V = SessionV;

    open spec fn view(&self) -> SessionV {
        SessionV {
            uuid: self.uuid@,
            patient_uuid: self.patient_uuid@,
            start: self.start,
            end: self.end,
            paid: self.paid,
            emotions: self.emotions.deep_view(),
            timeline: self.timeline.deep_view(),
            created_at: self.created_at,
            last_updated: self.last_updated,
            calendar_ids: self.calendar_ids.deep_view(),
        }
    }
}

impl DeepView for Session {
    type V = SessionV;

    open spec fn deep_view(&self) -> SessionV {
        self.view()
    }
}

impl SessionV {
    /// The calendar entry id this session is linked to for the account with
    /// the given email, if any.
    pub open spec fn linked_event_id(self, email: Seq<char>) -> Option<Seq<char>> {
        if exists|i: int| 0 <= i < self.calendar_ids.len() && self.calendar_ids[i].0 == email {
            let i = choose|i: int| 0 <= i < self.calendar_ids.len() && self.calendar_ids[i].0
                == email;
            Some(self.calendar_ids[i].1)
        } else {
            None
        }
    }
}

/// Duplicates an optional text value.
pub fn clone_opt_string(s: &Option<String>) -> (r: Option<String>)
    ensures
        r.deep_view() == s.deep_view(),
{
    match s {
        Some(v) => Some(v.clone()),
        None => None,
    }
}

/// Duplicates a list of text values.
pub fn clone_strings(v: &Vec<String>) -> (r: Vec<String>)
    ensures
        r.deep_view() == v.deep_view(),
{
    let mut out = Vec::new();
    let mut i: usize = 0;
    while i < v.len()
        invariant
            i <= v@.len(),
            out.deep_view() == v.deep_view().take(i as int),
        decreases v@.len() - i,
    {
        let ghost pre = out@;
        let ghost predv = out.deep_view();
        proof {
            assert(predv == v.deep_view().take(i as int));
            assert(predv.len() == i);
            assert(pre.len() == i);
        }
        let x = v[i].clone();
        assert(x.deep_view() == v.deep_view()[i as int]);
        out.push(x);
        proof {
            assert(out@ == pre.push(x));
            assert(out@.len() == i + 1);
            assert(forall|j: int| 0 <= j < i ==> out@[j] == pre[j]);
            assert(forall|j: int| 0 <= j < i ==> predv[j] == pre[j].deep_view());
            assert(forall|j: int|
                0 <= j < i + 1 ==> out.deep_view()[j] == out@[j].deep_view());
            assert(forall|j: int|
                0 <= j < i ==> out.deep_view()[j] == v.deep_view().take(i as int)[j]);
            assert(out.deep_view()[i as int] == x.deep_view());
            assert(out.deep_view() =~= v.deep_view().take(i as int + 1));
        }
        i = i + 1;
    }
    proof {
        assert(v.deep_view().take(v@.len() as int) =~= v.deep_view());
    }
    out
}

/// Duplicates an email-to-id pair list.
pub fn clone_string_pairs(v: &Vec<(String, String)>) -> (r: Vec<(String, String)>)
    ensures
        r.deep_view() == v.deep_view(),
{
    let mut out = Vec::new();
    let mut i: usize = 0;
    while i < v.len()
        invariant
            i <= v@.len(),
            out.deep_view() == v.deep_view().take(i as int),
        decreases v@.len() - i,
    {
        let ghost pre = out@;
        let ghost predv = out.deep_view();
        proof {
            assert(predv == v.deep_view().take(i as int));
            assert(predv.len() == i);
            assert(pre.len() == i);
        }
        let x = (v[i].0.clone(), v[i].1.clone());
        assert(x.deep_view() == v.deep_view()[i as int]);
        out.push(x);
        proof {
            assert(out@ == pre.push(x));
            assert(out@.len() == i + 1);
            assert(forall|j: int| 0 <= j < i ==> out@[j] == pre[j]);
            assert(forall|j: int| 0 <= j < i ==> predv[j] == pre[j].deep_view());
            assert(forall|j: int|
                0 <= j < i + 1 ==> out.deep_view()[j] == out@[j].deep_view());
            assert(forall|j: int|
                0 <= j < i ==> out.deep_view()[j] == v.deep_view().take(i as int)[j]);
            assert(out.deep_view()[i as int] == x.deep_view());
            assert(out.deep_view() =~= v.deep_view().take(i as int + 1));
        }
        i = i + 1;
    }
    proof {
        assert(v.deep_view().take(v@.len() as int) =~= v.deep_view());
    }
    out
}

impl Clone for Patient {
    fn clone(&self) -> (res: Self)
        ensures
            res@ == self@,
    {
        Patient {
            uuid: self.uuid.clone(),
            description: self.description.clone(),
            age: self.age,
            name: self.name.clone(),
            address: self.address.clone(),
            profile_picture: clone_opt_string(&self.profile_picture),
            created_at: self.created_at,
            last_updated: self.last_updated,
        }
    }
}

impl Clone for Emotion {
    fn clone(&self) -> (res: Self)
        ensures
            res@ == self@,
    {
        Emotion {
            uuid: self.uuid.clone(),
            id: self.id,
            kind: self.kind,
            aquired_age: self.aquired_age,
            aquired_person: self.aquired_person.clone(),
            created_at: self.created_at,
        }
    }
}

impl Clone for TimelineEvent {
    fn clone(&self) -> (res: Self)
        ensures
            res@ == self@,
    {
        match self {
            TimelineEvent::SessionStart => TimelineEvent::SessionStart,
            TimelineEvent::SessionEnd => TimelineEvent::SessionEnd,
            TimelineEvent::EmotionAdded(s) => TimelineEvent::EmotionAdded(s.clone()),
            TimelineEvent::EmotionRemoved(s) => TimelineEvent::EmotionRemoved(s.clone()),
        }
    }
}

/// Duplicates a session's emotion list.
pub fn clone_emotions(v: &Vec<Emotion>) -> (r: Vec<Emotion>)
    ensures
        r.deep_view() == v.deep_view(),
{
    let mut out = Vec::new();
    let mut i: usize = 0;
    while i < v.len()
        invariant
            i <= v@.len(),
            out.deep_view() == v.deep_view().take(i as int),
        decreases v@.len() - i,
    {
        let ghost pre = out@;
        let ghost predv = out.deep_view();
        proof {
            assert(predv == v.deep_view().take(i as int));
            assert(predv.len() == i);
            assert(pre.len() == i);
        }
        let x = v[i].clone();
        assert(x.deep_view() == v.deep_view()[i as int]);
        out.push(x);
        proof {
            assert(out@ == pre.push(x));
            assert(out@.len() == i + 1);
            assert(forall|j: int| 0 <= j < i ==> out@[j] == pre[j]);
            assert(forall|j: int| 0 <= j < i ==> predv[j] == pre[j].deep_view());
            assert(forall|j: int|
                0 <= j < i + 1 ==> out.deep_view()[j] == out@[j].deep_view());
            assert(forall|j: int|
                0 <= j < i ==> out.deep_view()[j] == v.deep_view().take(i as int)[j]);
            assert(out.deep_view()[i as int] == x.deep_view());
            assert(out.deep_view() =~= v.deep_view().take(i as int + 1));
        }
        i = i + 1;
    }
    proof {
        assert(v.deep_view().take(v@.len() as int) =~= v.deep_view());
    }
    out
}

/// Duplicates a session's timeline.
pub fn clone_timeline(v: &Vec<(u64, TimelineEvent)>) -> (r: Vec<(u64, TimelineEvent)>)
    ensures
        r.deep_view() == v.deep_view(),
{
    let mut out = Vec::new();
    let mut i: usize = 0;
    while i < v.len()
        invariant
            i <= v@.len(),
            out.deep_view() == v.deep_view().take(i as int),
        decreases v@.len() - i,
    {
        let ghost pre = out@;
        let ghost predv = out.deep_view();
        proof {
            assert(predv == v.deep_view().take(i as int));
            assert(predv.len() == i);
            assert(pre.len() == i);
        }
        let x = (v[i].0, v[i].1.clone());
        assert(x.deep_view() == v.deep_view()[i as int]);
        out.push(x);
        proof {
            assert(out@ == pre.push(x));
            assert(out@.len() == i + 1);
            assert(forall|j: int| 0 <= j < i ==> out@[j] == pre[j]);
            assert(forall|j: int| 0 <= j < i ==> predv[j] == pre[j].deep_view());
            assert(forall|j: int|
                0 <= j < i + 1 ==> out.deep_view()[j] == out@[j].deep_view());
            assert(forall|j: int|
                0 <= j < i ==> out.deep_view()[j] == v.deep_view().take(i as int)[j]);
            assert(out.deep_view()[i as int] == x.deep_view());
            assert(out.deep_view() =~= v.deep_view().take(i as int + 1));
        }
        i = i + 1;
    }
    proof {
        assert(v.deep_view().take(v@.len() as int) =~= v.deep_view());
    }
    out
}

impl Clone for Session {
    fn clone(&self) -> (res: Self)
        ensures
            res@ == self@,
    {
        let res = Session {
            uuid: self.uuid.clone(),
            patient_uuid: self.patient_uuid.clone(),
            start: self.start,
            end: self.end,
            paid: self.paid,
            emotions: clone_emotions(&self.emotions),
            timeline: clone_timeline(&self.timeline),
            created_at: self.created_at,
            last_updated: self.last_updated,
            calendar_ids: clone_string_pairs(&self.calendar_ids),
        };
        proof {
            assert(res@ =~= self@);
        }
        res
    }
}

/// Duplicates a list of patients.
pub fn clone_patients(v: &Vec<Patient>) -> (r: Vec<Patient>)
    ensures
        r.deep_view() == v.deep_view(),
{
    let mut out = Vec::new();
    let mut i: usize = 0;
    while i < v.len()
        invariant
            i <= v@.len(),
            out.deep_view() == v.deep_view().take(i as int),
        decreases v@.len() - i,
    {
        let ghost pre = out@;
        let ghost predv = out.deep_view();
        proof {
            assert(predv == v.deep_view().take(i as int));
            assert(predv.len() == i);
            assert(pre.len() == i);
        }
        let x = v[i].clone();
        assert(x.deep_view() == v.deep_view()[i as int]);
        out.push(x);
        proof {
            assert(out@ == pre.push(x));
            assert(out@.len() == i + 1);
            assert(forall|j: int| 0 <= j < i ==> out@[j] == pre[j]);
            assert(forall|j: int| 0 <= j < i ==> predv[j] == pre[j].deep_view());
            assert(forall|j: int|
                0 <= j < i + 1 ==> out.deep_view()[j] == out@[j].deep_view());
            assert(forall|j: int|
                0 <= j < i ==> out.deep_view()[j] == v.deep_view().take(i as int)[j]);
            assert(out.deep_view()[i as int] == x.deep_view());
            assert(out.deep_view() =~= v.deep_view().take(i as int + 1));
        }
        i = i + 1;
    }
    proof {
        assert(v.deep_view().take(v@.len() as int) =~= v.deep_view());
    }
    out
}

/// Duplicates a list of sessions.
pub fn clone_sessions(v: &Vec<Session>) -> (r: Vec<Session>)
    ensures
        r.deep_view() == v.deep_view(),
{
    let mut out = Vec::new();
    let mut i: usize = 0;
    while i < v.len()
        invariant
            i <= v@.len(),
            out.deep_view() == v.deep_view().take(i as int),
        decreases v@.len() - i,
    {
        let ghost pre = out@;
        let ghost predv = out.deep_view();
        proof {
            assert(predv == v.deep_view().take(i as int));
            assert(predv.len() == i);
            assert(pre.len() == i);
        }
        let x = v[i].clone();
        assert(x.deep_view() == v.deep_view()[i as int]);
        out.push(x);
        proof {
            assert(out@ == pre.push(x));
            assert(out@.len() == i + 1);
            assert(forall|j: int| 0 <= j < i ==> out@[j] == pre[j]);
            assert(forall|j: int| 0 <= j < i ==> predv[j] == pre[j].deep_view());
            assert(forall|j: int|
                0 <= j < i + 1 ==> out.deep_view()[j] == out@[j].deep_view());
            assert(forall|j: int|
                0 <= j < i ==> out.deep_view()[j] == v.deep_view().take(i as int)[j]);
            assert(out.deep_view()[i as int] == x.deep_view());
            assert(out.deep_view() =~= v.deep_view().take(i as int + 1));
        }
        i = i + 1;
    }
    proof {
        assert(v.deep_view().take(v@.len() as int) =~= v.deep_view());
    }
    out
}

/// Per-account feature settings.
#[derive(Debug, Clone, Copy)]
pub struct Settings {
    pub google_calendar_enabled: bool,
}

#[verifier::ext_equal]
pub ghost struct SettingsV {
    pub google_calendar_enabled: bool,
}

impl View for Settings {
    type V = SettingsV;

    open spec fn view(&self) -> SettingsV {
        SettingsV { google_calendar_enabled: self.google_calendar_enabled }
    }
}

impl DeepView for Settings {
    type V = SettingsV;

    open spec fn deep_view(&self) -> SettingsV {
        self.view()
    }
}

/// The external profile of a connected account, as the provider reports it.
#[derive(Debug)]
pub struct UserInfo {
    pub id: String,
    pub email: String,
    pub verified_email: bool,
    pub name: String,
    pub given_name: String,
    pub picture: String,
    pub locale: String,
}

#[verifier::ext_equal]
pub ghost struct UserInfoV {
    pub id: Seq<char>,
    pub email: Seq<char>,
    pub verified_email: bool,
    pub name: Seq<char>,
    pub given_name: Seq<char>,
    pub picture: Seq<char>,
    pub locale: Seq<char>,
}

impl View for UserInfo {
    type V = UserInfoV;

    open spec fn view(&self) -> UserInfoV {
        UserInfoV {
            id: self.id@,
            email: self.email@,
            verified_email: self.verified_email,
            name: self.name@,
            given_name: self.given_name@,
            picture: self.picture@,
            locale: self.locale@,
        }
    }
}

impl DeepView for UserInfo {
    type V = UserInfoV;

    open spec fn deep_view(&self) -> UserInfoV {
        self.view()
    }
}

/// A connected account: OAuth credentials plus profile and settings.
/// Exactly one account exists per distinct external email.
#[derive(Debug)]
pub struct User {
    pub access_token: String,
    pub expires_at: u64,
    pub refresh_token: String,
    pub user_info: UserInfo,
    pub settings: Settings,
}

#[verifier::ext_equal]
pub ghost struct UserV {
    pub access_token: Seq<char>,
    pub expires_at: u64,
    pub refresh_token: Seq<char>,
    pub user_info: UserInfoV,
    pub settings: SettingsV,
}

impl View for User {
    type V = UserV;

    open spec fn view(&self) -> UserV {
        UserV {
            access_token: self.access_token@,
            expires_at: self.expires_at,
            refresh_token: self.refresh_token@,
            user_info: self.user_info@,
            settings: self.settings@,
        }
    }
}

impl DeepView for User {
    type V = UserV;

    open spec fn deep_view(&self) -> UserV {
        self.view()
    }
}

/// The flat, persistable form of an account record: the profile fields
/// joined with the credential fields and the settings.
#[derive(Debug)]
pub struct RwUser {
    pub id: String,
    pub email: String,
    pub verified_email: bool,
    pub name: String,
    pub given_name: String,
    pub picture: String,
    pub locale: String,
    pub settings: Settings,
    pub access_token: String,
    pub expires_at: u64,
    pub refresh_token: String,
}

#[verifier::ext_equal]
pub ghost struct RwUserV {
    pub id: Seq<char>,
    pub email: Seq<char>,
    pub verified_email: bool,
    pub name: Seq<char>,
    pub given_name: Seq<char>,
    pub picture: Seq<char>,
    pub locale: Seq<char>,
    pub settings: SettingsV,
    pub access_token: Seq<char>,
    pub expires_at: u64,
    pub refresh_token: Seq<char>,
}

impl View for RwUser {
    type V = RwUserV;

    open spec fn view(&self) -> RwUserV {
        RwUserV {
            id: self.id@,
            email: self.email@,
            verified_email: self.verified_email,
            name: self.name@,
            given_name: self.given_name@,
            picture: self.picture@,
            locale: self.locale@,
            settings: self.settings@,
            access_token: self.access_token@,
            expires_at: self.expires_at,
            refresh_token: self.refresh_token@,
        }
    }
}

impl DeepView for RwUser {
    type V = RwUserV;

    open spec fn deep_view(&self) -> RwUserV {
        self.view()
    }
}

impl RwUser {
    /// Flattens an account into its persistable record.
    pub fn from_user(u: &User) -> (r: RwUser)
        ensures
            r@ == RwUserV::of_user(u@),
    {
        RwUser {
            id: u.user_info.id.clone(),
            email: u.user_info.email.clone(),
            verified_email: u.user_info.verified_email,
            name: u.user_info.name.clone(),
            given_name: u.user_info.given_name.clone(),
            picture: u.user_info.picture.clone(),
            locale: u.user_info.locale.clone(),
            settings: u.settings,
            access_token: u.access_token.clone(),
            expires_at: u.expires_at,
            refresh_token: u.refresh_token.clone(),
        }
    }

    /// Rebuilds the in-memory account from its persisted record.
    pub fn into_user(self) -> (r: User)
        ensures
            r@ == self@.to_user(),
    {
        User {
            access_token: self.access_token,
            expires_at: self.expires_at,
            refresh_token: self.refresh_token,
            settings: self.settings,
            user_info: UserInfo {
                id: self.id,
                email: self.email,
                verified_email: self.verified_email,
                name: self.name,
                given_name: self.given_name,
                picture: self.picture,
                locale: self.locale,
            },
        }
    }
}

impl RwUserV {
    pub open spec fn of_user(u: UserV) -> RwUserV {
        RwUserV {
            id: u.user_info.id,
            email: u.user_info.email,
            verified_email: u.user_info.verified_email,
            name: u.user_info.name,
            given_name: u.user_info.given_name,
            picture: u.user_info.picture,
            locale: u.user_info.locale,
            settings: u.settings,
            access_token: u.access_token,
            expires_at: u.expires_at,
            refresh_token: u.refresh_token,
        }
    }

    pub open spec fn to_user(self) -> UserV {
        UserV {
            access_token: self.access_token,
            expires_at: self.expires_at,
            refresh_token: self.refresh_token,
            settings: self.settings,
            user_info: UserInfoV {
                id: self.id,
                email: self.email,
                verified_email: self.verified_email,
                name: self.name,
                given_name: self.given_name,
                picture: self.picture,
                locale: self.locale,
            },
        }
    }
}

/// The local record of an external push-notification subscription:
/// subscription id, the resource id that validates inbound notifications,
/// its expiry, the ids of the cached remote events, and the sync cursor.
#[derive(Debug)]
pub struct GoogleWebhook {
    pub uuid: String,
    pub resource_id: String,
    pub expiry: u64,
    pub events: Vec<String>,
    pub sync_token: String,
}

#[verifier::ext_equal]
pub ghost struct GoogleWebhookV {
    pub uuid: Seq<char>,
    pub resource_id: Seq<char>,
    pub expiry: u64,
    pub events: Seq<Seq<char>>,
    pub sync_token: Seq<char>,
}

impl View for GoogleWebhook {
    type V = GoogleWebhookV;

    open spec fn view(&self) -> GoogleWebhookV {
        GoogleWebhookV {
            uuid: self.uuid@,
            resource_id: self.resource_id@,
            expiry: self.expiry,
            events: self.events.deep_view(),
            sync_token: self.sync_token@,
        }
    }
}

impl DeepView for GoogleWebhook {
    type V = GoogleWebhookV;

    open spec fn deep_view(&self) -> GoogleWebhookV {
        self.view()
    }
}

/// The OAuth client credential pair handed to the token endpoint.
#[derive(Debug, Clone)]
pub struct Secrets {
    pub client_id: String,
    pub client_secret: String,
}

/// What the token endpoint returns for an authorization-code exchange.
#[derive(Debug, Clone)]
pub struct GoogleResp {
    pub access_token: String,
    pub expires_in: u64,
    pub refresh_token: String,
}

/// What the token endpoint returns for a refresh-token exchange.
#[derive(Debug, Clone)]
pub struct GoogleRefreshResp {
    pub access_token: String,
    pub expires_in: u64,
}

impl Clone for UserInfo {
    fn clone(&self) -> (res: Self)
        ensures
            res@ == self@,
    {
        UserInfo {
            id: self.id.clone(),
            email: self.email.clone(),
            verified_email: self.verified_email,
            name: self.name.clone(),
            given_name: self.given_name.clone(),
            picture: self.picture.clone(),
            locale: self.locale.clone(),
        }
    }
}

impl Clone for User {
    fn clone(&self) -> (res: Self)
        ensures
            res@ == self@,
    {
        User {
            access_token: self.access_token.clone(),
            expires_at: self.expires_at,
            refresh_token: self.refresh_token.clone(),
            user_info: self.user_info.clone(),
            settings: self.settings,
        }
    }
}

impl Clone for RwUser {
    fn clone(&self) -> (res: Self)
        ensures
            res@ == self@,
    {
        RwUser {
            id: self.id.clone(),
            email: self.email.clone(),
            verified_email: self.verified_email,
            name: self.name.clone(),
            given_name: self.given_name.clone(),
            picture: self.picture.clone(),
            locale: self.locale.clone(),
            settings: self.settings,
            access_token: self.access_token.clone(),
            expires_at: self.expires_at,
            refresh_token: self.refresh_token.clone(),
        }
    }
}

impl Clone for GoogleWebhook {
    fn clone(&self) -> (res: Self)
        ensures
            res@ == self@,
    {
        let res = GoogleWebhook {
            uuid: self.uuid.clone(),
            resource_id: self.resource_id.clone(),
            expiry: self.expiry,
            events: clone_strings(&self.events),
            sync_token: self.sync_token.clone(),
        };
        proof {
            assert(res@ =~= self@);
        }
        res
    }
}

} // verus!
