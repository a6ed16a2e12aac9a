//! The devices that visited the server: each is known by its address and a
//! short hash of its User-Agent, and is forgotten after a period without
//! visits.
use vstd::prelude::*;
use crate::foreign::{default_hash, hash_text, lowercase, to_lowercase};
use crate::text::{chars_of, contains, contains_seq, hex, push_hex};

verus! {

/// The kind of a device, from its User-Agent.
#[derive(Debug, Clone, Copy, PartialEq, Eq, Structural)]
pub enum DeviceType {
    Mobile,
    Tablet,
    Desktop,
    Unknown,
}

/// A device that visited the server. Times are seconds since the Unix
/// epoch.
#[derive(Debug, Clone, PartialEq, Eq)]
pub struct Device {
    pub id: String,
    pub ip: String,
    pub user_agent: String,
    pub device_name: String,
    pub device_type: DeviceType,
    pub first_seen: u64,
    pub last_seen: u64,
}

/// The view of a [`Device`].
pub struct DeviceView {
    pub id: Seq<char>,
    pub ip: Seq<char>,
    pub user_agent: Seq<char>,
    pub device_name: Seq<char>,
    pub device_type: DeviceType,
    pub first_seen: u64,
    pub last_seen: u64,
}

impl View for Device {
    type V = DeviceView;

    open spec fn view(&self) -> DeviceView {
        DeviceView {
            id: self.id@,
            ip: self.ip@,
            user_agent: self.user_agent@,
            device_name: self.device_name@,
            device_type: self.device_type,
            first_seen: self.first_seen,
            last_seen: self.last_seen,
        }
    }
}

impl Device {
    /// A copy of this device.
    pub fn duplicate(&self) -> (r: Device)
        ensures
            r@ == self@,
    {
        Device {
            id: self.id.clone(),
            ip: self.ip.clone(),
            user_agent: self.user_agent.clone(),
            device_name: self.device_name.clone(),
            device_type: self.device_type,
            first_seen: self.first_seen,
            last_seen: self.last_seen,
        }
    }
}

/// The kind of device a User-Agent names: phones first, then tablets, then
/// desktop systems.
pub open spec fn device_type_of(user_agent: Seq<char>) -> DeviceType {
    let ua = lowercase(user_agent);
    if contains_seq(ua, "mobile"@) || contains_seq(ua, "android"@) || contains_seq(ua, "iphone"@)
        || contains_seq(ua, "ipod"@) {
        DeviceType::Mobile
    } else if contains_seq(ua, "tablet"@) || contains_seq(ua, "ipad"@) {
        DeviceType::Tablet
    } else if contains_seq(ua, "windows"@) || contains_seq(ua, "macintosh"@) || contains_seq(
        ua,
        "linux"@,
    ) {
        DeviceType::Desktop
    } else {
        DeviceType::Unknown
    }
}

/// The name shown for the device a User-Agent names.
pub open spec fn device_name_of(user_agent: Seq<char>) -> Seq<char> {
    let ua = lowercase(user_agent);
    if contains_seq(ua, "iphone"@) {
        "iPhone"@
    } else if contains_seq(ua, "ipad"@) {
        "iPad"@
    } else if contains_seq(ua, "android"@) {
        if contains_seq(ua, "mobile"@) {
            "Android Phone"@
        } else {
            "Android Tablet"@
        }
    } else if contains_seq(ua, "windows"@) {
        "Windows PC"@
    } else if contains_seq(ua, "macintosh"@) || contains_seq(ua, "mac os"@) {
        "Mac"@
    } else if contains_seq(ua, "linux"@) {
        "Linux"@
    } else {
        "Unknown Device"@
    }
}

/// The kind of device a User-Agent names.
pub fn detect_device_type(user_agent: &str) -> (r: DeviceType)
    ensures
        r == device_type_of(user_agent@),
{
    let ua = to_lowercase(user_agent);
    let s = ua.as_str();
    if contains(s, "mobile") || contains(s, "android") || contains(s, "iphone") || contains(s, "ipod") {
        DeviceType::Mobile
    } else if contains(s, "tablet") || contains(s, "ipad") {
        DeviceType::Tablet
    } else if contains(s, "windows") || contains(s, "macintosh") || contains(s, "linux") {
        DeviceType::Desktop
    } else {
        DeviceType::Unknown
    }
}

/// The name shown for the device a User-Agent names.
pub fn extract_device_name(user_agent: &str) -> (r: String)
    ensures
        r@ == device_name_of(user_agent@),
{
    let ua = to_lowercase(user_agent);
    let s = ua.as_str();
    if contains(s, "iphone") {
        String::from_str("iPhone")
    } else if contains(s, "ipad") {
        String::from_str("iPad")
    } else if contains(s, "android") {
        if contains(s, "mobile") {
            String::from_str("Android Phone")
        } else {
            String::from_str("Android Tablet")
        }
    } else if contains(s, "windows") {
        String::from_str("Windows PC")
    } else if contains(s, "macintosh") || contains(s, "mac os") {
        String::from_str("Mac")
    } else if contains(s, "linux") {
        String::from_str("Linux")
    } else {
        String::from_str("Unknown Device")
    }
}

/// A User-Agent can be abbreviated: the hexadecimal text of its hash has
/// at least eight digits.
pub open spec fn has_hash_prefix(user_agent: Seq<char>) -> bool {
    hex(default_hash(user_agent) as nat).len() >= 8
}

/// The first eight hexadecimal digits of the hash of a User-Agent.
pub open spec fn hash_prefix(user_agent: Seq<char>) -> Seq<char> {
    hex(default_hash(user_agent) as nat).subrange(0, 8)
}

/// The identifier of the device at `ip` with this User-Agent.
pub open spec fn device_id(ip: Seq<char>, user_agent: Seq<char>) -> Seq<char> {
    ip + seq!['-'] + hash_prefix(user_agent)
}

/// The first eight hexadecimal digits of the hash of a User-Agent, when
/// the hash has that many.
pub fn hash_user_agent(user_agent: &str) -> (r: Option<String>)
    ensures
        r is Some == has_hash_prefix(user_agent@),
        r matches Some(s) ==> s@ == hash_prefix(user_agent@),
{
    let h = hash_text(user_agent);
    let mut full = String::new();
    push_hex(&mut full, h);
    assert(full@ =~= hex(h as nat));
    let cs = chars_of(full.as_str());
    if cs.len() < 8 {
        return None;
    }
    let mut r = String::new();
    let mut i: usize = 0;
    while i < 8
        invariant
            cs@ == hex(h as nat),
            cs@.len() >= 8,
            i <= 8,
            r@ == cs@.subrange(0, i as int),
        decreases 8 - i,
    {
        r.push(cs[i]);
        i = i + 1;
        assert(r@ =~= cs@.subrange(0, i as int));
    }
    Some(r)
}

/// The position of the device with identifier `id`, if one is known.
pub open spec fn position_of(ds: Seq<DeviceView>, id: Seq<char>) -> Option<int>
    decreases ds.len(),
{
    if ds.len() == 0 {
        None
    } else if ds.last().id == id {
        Some(ds.len() - 1)
    } else {
        position_of(ds.drop_last(), id)
    }
}

/// No two devices share an identifier.
pub open spec fn ids_distinct(ds: Seq<DeviceView>) -> bool {
    forall|i: int, j: int| 0 <= i < j < ds.len() ==> ds[i].id != ds[j].id
}

/// The device recorded for a visit at time `now`: a device already known
/// keeps its name, kind and first visit.
pub open spec fn visited(
    known: Option<DeviceView>,
    id: Seq<char>,
    ip: Seq<char>,
    user_agent: Seq<char>,
    now: u64,
) -> DeviceView {
    match known {
        Some(d) => DeviceView {
            id,
            ip,
            user_agent,
            device_name: d.device_name,
            device_type: d.device_type,
            first_seen: d.first_seen,
            last_seen: now,
        },
        None => DeviceView {
            id,
            ip,
            user_agent,
            device_name: device_name_of(user_agent),
            device_type: device_type_of(user_agent),
            first_seen: now,
            last_seen: now,
        },
    }
}

/// The device that a visit at time `now` from `ip` with this User-Agent
/// records, given the known devices `ds`.
pub open spec fn recorded(ds: Seq<DeviceView>, ip: Seq<char>, user_agent: Seq<char>, now: u64) -> DeviceView {
    let id = device_id(ip, user_agent);
    visited(
        match position_of(ds, id) {
            Some(i) => Some(ds[i]),
            None => None,
        },
        id,
        ip,
        user_agent,
        now,
    )
}

/// The known devices after that visit: the device replaces the one known
/// under its identifier, or is added at the end.
pub open spec fn after_visit(ds: Seq<DeviceView>, ip: Seq<char>, user_agent: Seq<char>, now: u64) -> Seq<
    DeviceView,
> {
    let d = recorded(ds, ip, user_agent, now);
    match position_of(ds, d.id) {
        Some(i) => ds.update(i, d),
        None => ds.push(d),
    }
}

/// The devices seen within `timeout` seconds before `now`, in order.
pub open spec fn still_active(ds: Seq<DeviceView>, now: u64, timeout: u64) -> Seq<DeviceView>
    decreases ds.len(),
{
    if ds.len() == 0 {
        seq![]
    } else {
        let kept = still_active(ds.drop_last(), now, timeout);
        if now - ds.last().last_seen < timeout {
            kept.push(ds.last())
        } else {
            kept
        }
    }
}

/// The views of a list of devices.
pub open spec fn device_views(v: Seq<Device>) -> Seq<DeviceView> {
    v.map_values(|d: Device| d@)
}

proof fn lemma_position_of(ds: Seq<DeviceView>, id: Seq<char>)
    ensures
        position_of(ds, id) matches Some(i) ==> 0 <= i < ds.len() && ds[i].id == id,
        position_of(ds, id) is None ==> forall|i: int| 0 <= i < ds.len() ==> ds[i].id != id,
    decreases ds.len(),
{
    if ds.len() > 0 {
        let init = ds.drop_last();
        lemma_position_of(init, id);
        if position_of(ds, id) is None {
            assert forall|i: int| 0 <= i < ds.len() implies ds[i].id != id by {
                if i < init.len() {
                    assert(ds[i] == init[i]);
                }
            }
        }
    }
}

/// The devices that visited recently.
pub struct DeviceTracker {
    devices: Vec<Device>,
    timeout: u64,
}

impl DeviceTracker {
    /// The known devices, in the order they were first seen.
    pub closed spec fn devices(&self) -> Seq<DeviceView> {
        device_views(self.devices@)
    }

    /// The seconds without a visit after which a device is forgotten.
    pub closed spec fn timeout(&self) -> u64 {
        self.timeout
    }

    /// The tracker is consistent: no two devices share an identifier.
    pub open spec fn wf(&self) -> bool {
        ids_distinct(self.devices())
    }

    /// An empty tracker that forgets devices after two minutes.
    pub fn new() -> (r: DeviceTracker)
        ensures
            r.wf(),
            r.devices() == Seq::<DeviceView>::empty(),
            r.timeout() == 120,
    {
        let r = DeviceTracker { devices: Vec::new(), timeout: 120 };
        assert(r.devices() =~= Seq::<DeviceView>::empty());
        r
    }

    /// Records a visit at time `now` from `ip` with this User-Agent, and
    /// returns the device as recorded. A device already known keeps its
    /// name, kind and first visit; a new one is added at the end.
    pub fn record_visit(&mut self, ip: &str, user_agent: &str, now: u64) -> (r: Device)
        requires
            old(self).wf(),
            has_hash_prefix(user_agent@),
        ensures
            final(self).wf(),
            final(self).timeout() == old(self).timeout(),
            r@ == recorded(old(self).devices(), ip@, user_agent@, now),
            final(self).devices() == after_visit(old(self).devices(), ip@, user_agent@, now),
    {
        let prefix = match hash_user_agent(user_agent) {
            Some(p) => p,
            None => String::new(),
        };
        let mut id = String::from_str(ip);
        id.push('-');
        id.append(prefix.as_str());
        assert(id@ =~= device_id(ip@, user_agent@));
        let ghost ds = self.devices();
        proof {
            lemma_position_of(ds, id@);
        }
        let n = self.devices.len();
        let mut k: usize = n;
        assert(ds.subrange(0, n as int) =~= ds);
        while k > 0 && self.devices[k - 1].id != id
            invariant
                k <= n,
                n == self.devices@.len(),
                ds == device_views(self.devices@),
                position_of(ds, id@) == position_of(ds.subrange(0, k as int), id@),
            decreases k,
        {
            assert(ds.subrange(0, k as int).drop_last() =~= ds.subrange(0, k - 1));
            k = k - 1;
        }
        if k > 0 {
            let i = k - 1;
            assert(position_of(ds.subrange(0, k as int), id@) == Some(i as int));
            let old_dev = &self.devices[i];
            let d = Device {
                id,
                ip: String::from_str(ip),
                user_agent: String::from_str(user_agent),
                device_name: old_dev.device_name.clone(),
                device_type: old_dev.device_type,
                first_seen: old_dev.first_seen,
                last_seen: now,
            };
            let copy = d.duplicate();
            self.devices.set(i, d);
            proof {
                assert(self.devices() =~= ds.update(i as int, copy@));
                assert forall|a: int, b: int|
                    0 <= a < b < self.devices().len() implies self.devices()[a].id
                    != self.devices()[b].id by {
                    if a == i as int {
                        assert(ds[b].id == self.devices()[b].id);
                    } else if b == i as int {
                        assert(ds[a].id == self.devices()[a].id);
                    } else {
                        assert(ds[a].id == self.devices()[a].id);
                        assert(ds[b].id == self.devices()[b].id);
                    }
                }
            }
            copy
        } else {
            assert(ds.subrange(0, 0) =~= Seq::<DeviceView>::empty());
            let d = Device {
                id,
                ip: String::from_str(ip),
                user_agent: String::from_str(user_agent),
                device_name: extract_device_name(user_agent),
                device_type: detect_device_type(user_agent),
                first_seen: now,
                last_seen: now,
            };
            let copy = d.duplicate();
            self.devices.push(d);
            proof {
                assert(self.devices() =~= ds.push(copy@));
            }
            copy
        }
    }

    /// Records a visit as [`DeviceTracker::record_visit`] does, when the
    /// User-Agent's hash has at least eight hexadecimal digits; otherwise
    /// records nothing and returns `None`.
    pub fn try_record_visit(&mut self, ip: &str, user_agent: &str, now: u64) -> (r: Option<Device>)
        requires
            old(self).wf(),
        ensures
            final(self).wf(),
            final(self).timeout() == old(self).timeout(),
            r is Some == has_hash_prefix(user_agent@),
            r is None ==> final(self).devices() == old(self).devices(),
            r matches Some(d) ==> d@ == recorded(old(self).devices(), ip@, user_agent@, now)
                && final(self).devices() == after_visit(old(self).devices(), ip@, user_agent@, now),
    {
        match hash_user_agent(user_agent) {
            None => None,
            Some(_) => Some(self.record_visit(ip, user_agent, now)),
        }
    }

    /// Forgets the devices not seen within the timeout before `now`.
    pub fn cleanup_devices(&mut self, now: u64)
        requires
            old(self).wf(),
            forall|i: int|
                0 <= i < old(self).devices().len() ==> #[trigger] old(self).devices()[i].last_seen
                    <= now,
        ensures
            final(self).wf(),
            final(self).timeout() == old(self).timeout(),
            final(self).devices() == still_active(old(self).devices(), now, old(self).timeout()),
    {
        let ghost ds = self.devices();
        let mut kept: Vec<Device> = Vec::new();
        let mut i: usize = 0;
        while i < self.devices.len()
            invariant
                ds == device_views(self.devices@),
                ids_distinct(ds),
                i <= ds.len(),
                forall|j: int| 0 <= j < ds.len() ==> #[trigger] ds[j].last_seen <= now,
                device_views(kept@) == still_active(ds.subrange(0, i as int), now, self.timeout),
            decreases ds.len() - i,
        {
            assert(ds.subrange(0, i + 1).drop_last() =~= ds.subrange(0, i as int));
            let d = &self.devices[i];
            assert(ds[i as int].last_seen <= now);
            if now - d.last_seen < self.timeout {
                let c = d.duplicate();
                let ghost before = device_views(kept@);
                kept.push(c);
                assert(device_views(kept@) =~= before.push(c@));
            }
            i = i + 1;
        }
        assert(ds.subrange(0, ds.len() as int) =~= ds);
        proof {
            lemma_still_active_subseq(ds, now, self.timeout);
        }
        self.devices = kept;
    }

    /// The devices seen within the timeout before `now`, after forgetting
    /// the others.
    pub fn get_active_devices(&mut self, now: u64) -> (r: Vec<Device>)
        requires
            old(self).wf(),
            forall|i: int|
                0 <= i < old(self).devices().len() ==> #[trigger] old(self).devices()[i].last_seen
                    <= now,
        ensures
            final(self).wf(),
            final(self).timeout() == old(self).timeout(),
            final(self).devices() == still_active(old(self).devices(), now, old(self).timeout()),
            device_views(r@) == final(self).devices(),
    {
        self.cleanup_devices(now);
        let mut r: Vec<Device> = Vec::new();
        let mut i: usize = 0;
        while i < self.devices.len()
            invariant
                i <= self.devices@.len(),
                device_views(r@) == device_views(self.devices@).subrange(0, i as int),
            decreases self.devices@.len() - i,
        {
            let c = self.devices[i].duplicate();
            let ghost before = device_views(r@);
            r.push(c);
            assert(device_views(r@) =~= before.push(c@));
            assert(device_views(r@) =~= device_views(self.devices@).subrange(0, i + 1));
            i = i + 1;
        }
        assert(device_views(self.devices@).subrange(0, i as int) =~= device_views(self.devices@));
        r
    }
}

impl Default for DeviceTracker {
    /// An empty tracker that forgets devices after two minutes.
    fn default() -> (r: DeviceTracker)
        ensures
            r.wf(),
            r.devices() == Seq::<DeviceView>::empty(),
            r.timeout() == 120,
    {
        DeviceTracker::new()
    }
}

/// A cleanup keeps exactly the devices seen within the timeout: every
/// device it keeps was seen less than `timeout` seconds before `now`, and
/// every such device is kept.
pub proof fn lemma_cleanup_keeps_exactly_recent(ds: Seq<DeviceView>, now: u64, timeout: u64)
    requires
        forall|i: int| 0 <= i < ds.len() ==> #[trigger] ds[i].last_seen <= now,
    ensures
        forall|i: int|
            0 <= i < still_active(ds, now, timeout).len() ==> now - (#[trigger] still_active(
                ds,
                now,
                timeout,
            )[i]).last_seen < timeout,
        forall|j: int|
            0 <= j < ds.len() && now - ds[j].last_seen < timeout ==> still_active(
                ds,
                now,
                timeout,
            ).contains(#[trigger] ds[j]),
    decreases ds.len(),
{
    if ds.len() > 0 {
        let init = ds.drop_last();
        assert forall|i: int| 0 <= i < init.len() implies #[trigger] init[i].last_seen <= now by {
            assert(init[i] == ds[i]);
        }
        lemma_cleanup_keeps_exactly_recent(init, now, timeout);
        let kept = still_active(init, now, timeout);
        let s = still_active(ds, now, timeout);
        assert forall|i: int| 0 <= i < s.len() implies now - (#[trigger] s[i]).last_seen
            < timeout by {
            if i < kept.len() {
                assert(s[i] == kept[i]);
            }
        }
        assert forall|j: int| 0 <= j < ds.len() && now - ds[j].last_seen < timeout implies s.contains(
            #[trigger] ds[j],
        ) by {
            if j < init.len() {
                assert(ds[j] == init[j]);
                assert(kept.contains(init[j]));
                let k = choose|k: int| 0 <= k < kept.len() && kept[k] == init[j];
                assert(s[k] == kept[k]);
            } else {
                assert(s[s.len() - 1] == ds[j]);
            }
        }
    }
}

/// After a visit is recorded, the device is known under its identifier and
/// holds what the visit recorded.
pub proof fn lemma_recorded_device_is_known(ds: Seq<DeviceView>, d: DeviceView)
    requires
        ids_distinct(ds),
    ensures
        position_of(ds, d.id) matches Some(i) ==> position_of(ds.update(i, d), d.id) == Some(i),
        position_of(ds, d.id) is None ==> position_of(ds.push(d), d.id) == Some(ds.len() as int),
    decreases ds.len(),
{
    lemma_position_of(ds, d.id);
    if let Some(i) = position_of(ds, d.id) {
        lemma_position_is_unique(ds.update(i, d), d.id, i);
    } else {
        assert(ds.push(d).last() == d);
        assert(ds.push(d).drop_last() =~= ds);
    }
}

/// With distinct identifiers, the device at position `i` is the one found
/// under its identifier.
proof fn lemma_position_is_unique(ds: Seq<DeviceView>, id: Seq<char>, i: int)
    requires
        0 <= i < ds.len(),
        ds[i].id == id,
        forall|a: int| 0 <= a < ds.len() && a != i ==> ds[a].id != id,
    ensures
        position_of(ds, id) == Some(i),
    decreases ds.len(),
{
    if i < ds.len() - 1 {
        let init = ds.drop_last();
        assert(init[i] == ds[i]);
        assert forall|a: int| 0 <= a < init.len() && a != i implies init[a].id != id by {
            assert(init[a] == ds[a]);
        }
        lemma_position_is_unique(init, id, i);
    }
}

/// The devices kept by a cleanup are a selection of the known ones, in
/// order, so distinct identifiers stay distinct.
proof fn lemma_still_active_subseq(ds: Seq<DeviceView>, now: u64, timeout: u64)
    requires
        ids_distinct(ds),
    ensures
        ids_distinct(still_active(ds, now, timeout)),
        forall|i: int|
            0 <= i < still_active(ds, now, timeout).len() ==> exists|j: int|
                0 <= j < ds.len() && #[trigger] still_active(ds, now, timeout)[i] == ds[j],
    decreases ds.len(),
{
    if ds.len() > 0 {
        let init = ds.drop_last();
        lemma_still_active_subseq(init, now, timeout);
        let kept = still_active(init, now, timeout);
        let s = still_active(ds, now, timeout);
        assert forall|i: int| 0 <= i < s.len() implies exists|j: int|
            0 <= j < ds.len() && #[trigger] s[i] == ds[j] by {
            if i < kept.len() {
                let j = choose|j: int| 0 <= j < init.len() && #[trigger] kept[i] == init[j];
                assert(s[i] == ds[j]);
            } else {
                assert(s[i] == ds[ds.len() - 1]);
            }
        }
        assert forall|a: int, b: int| 0 <= a < b < s.len() implies s[a].id != s[b].id by {
            if b < kept.len() {
            } else {
                let j = choose|j: int| 0 <= j < init.len() && #[trigger] kept[a] == init[j];
                assert(s[a] == ds[j]);
                assert(s[b] == ds[ds.len() - 1]);
            }
        }
    }
}

/// A visit keeps the identifiers distinct, and afterwards the device is
/// known under its identifier as the visit recorded it.
pub proof fn lemma_visit_keeps_ids_distinct(
    ds: Seq<DeviceView>,
    ip: Seq<char>,
    user_agent: Seq<char>,
    now: u64,
)
    requires
        ids_distinct(ds),
    ensures
        ids_distinct(after_visit(ds, ip, user_agent, now)),
        position_of(after_visit(ds, ip, user_agent, now), device_id(ip, user_agent)) matches Some(k)
            && after_visit(ds, ip, user_agent, now)[k] == recorded(ds, ip, user_agent, now),
{
    let d = recorded(ds, ip, user_agent, now);
    let e = after_visit(ds, ip, user_agent, now);
    lemma_position_of(ds, d.id);
    lemma_recorded_device_is_known(ds, d);
    if let Some(i) = position_of(ds, d.id) {
        assert forall|a: int, b: int| 0 <= a < b < e.len() implies e[a].id != e[b].id by {
            if a != i && b != i {
                assert(e[a] == ds[a] && e[b] == ds[b]);
            } else if a == i {
                assert(e[b] == ds[b]);
            } else {
                assert(e[a] == ds[a]);
            }
        }
    } else {
        assert forall|a: int, b: int| 0 <= a < b < e.len() implies e[a].id != e[b].id by {
            assert(e[a] == ds[a]);
            if b < ds.len() {
                assert(e[b] == ds[b]);
            }
        }
    }
}

/// A repeated visit from the same address with the same User-Agent finds
/// the device the first visit recorded: it keeps its identifier, name,
/// kind and first visit, takes the later time as its last visit, and no
/// device is added.
pub proof fn lemma_repeat_visit(
    ds: Seq<DeviceView>,
    ip: Seq<char>,
    user_agent: Seq<char>,
    t1: u64,
    t2: u64,
)
    requires
        ids_distinct(ds),
    ensures
        ({
            let d1 = recorded(ds, ip, user_agent, t1);
            let ds1 = after_visit(ds, ip, user_agent, t1);
            let d2 = recorded(ds1, ip, user_agent, t2);
            let ds2 = after_visit(ds1, ip, user_agent, t2);
            &&& d2.id == d1.id
            &&& d2.first_seen == d1.first_seen
            &&& d2.device_name == d1.device_name
            &&& d2.device_type == d1.device_type
            &&& d2.last_seen == t2
            &&& (t1 <= t2 ==> d1.last_seen <= d2.last_seen)
            &&& ds2.len() == ds1.len()
            &&& ids_distinct(ds2)
            &&& position_of(ds2, d1.id) == position_of(ds1, d1.id)
        }),
{
    let id = device_id(ip, user_agent);
    let d1 = recorded(ds, ip, user_agent, t1);
    let ds1 = after_visit(ds, ip, user_agent, t1);
    lemma_visit_keeps_ids_distinct(ds, ip, user_agent, t1);
    lemma_visit_keeps_ids_distinct(ds1, ip, user_agent, t2);
    lemma_position_of(ds1, id);
    let k = position_of(ds1, id)->0;
    assert(ds1[k] == d1);
    let d2 = recorded(ds1, ip, user_agent, t2);
    lemma_recorded_device_is_known(ds1, d2);
    assert(d1.id == id && d2.id == id);
    assert(after_visit(ds1, ip, user_agent, t2) == ds1.update(k, d2));
}

/// Visits from different addresses get different identifiers.
pub proof fn lemma_ids_tell_addresses_apart(
    ip1: Seq<char>,
    user_agent1: Seq<char>,
    ip2: Seq<char>,
    user_agent2: Seq<char>,
)
    requires
        has_hash_prefix(user_agent1),
        has_hash_prefix(user_agent2),
        ip1 != ip2,
    ensures
        device_id(ip1, user_agent1) != device_id(ip2, user_agent2),
{
    let id1 = device_id(ip1, user_agent1);
    let id2 = device_id(ip2, user_agent2);
    assert(id1.subrange(0, ip1.len() as int) =~= ip1);
    assert(id2.subrange(0, ip2.len() as int) =~= ip2);
    assert(id1.len() == ip1.len() + 9);
    assert(id2.len() == ip2.len() + 9);
}

/// The kind of a device follows the words of its lower-cased User-Agent:
/// "mobile", "android", "iphone" or "ipod" make it a phone; otherwise
/// "tablet" or "ipad" a tablet; otherwise "windows", "macintosh" or
/// "linux" a desktop; and none of these leaves it unknown.
pub proof fn lemma_device_kind_by_words(user_agent: Seq<char>)
    ensures
        ({
            let ua = lowercase(user_agent);
            let phone = contains_seq(ua, "mobile"@) || contains_seq(ua, "android"@) || contains_seq(
                ua,
                "iphone"@,
            ) || contains_seq(ua, "ipod"@);
            let tablet = contains_seq(ua, "tablet"@) || contains_seq(ua, "ipad"@);
            let desktop = contains_seq(ua, "windows"@) || contains_seq(ua, "macintosh"@)
                || contains_seq(ua, "linux"@);
            &&& phone ==> device_type_of(user_agent) == DeviceType::Mobile
            &&& !phone && tablet ==> device_type_of(user_agent) == DeviceType::Tablet
            &&& !phone && !tablet && desktop ==> device_type_of(user_agent) == DeviceType::Desktop
            &&& !phone && !tablet && !desktop ==> device_type_of(user_agent) == DeviceType::Unknown
        }),
{
}

} // verus!
