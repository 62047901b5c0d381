//! A host to reach over SSH.

use crate::search::{contains, find_in, lemma_find};
use crate::text::{
    chars_of, copy_opt, copy_opt_strings, copy_strings, has_string, lowercase, opt_view, opt_views,
    to_lowercase, views,
};
use vstd::prelude::*;

verus! {

/// A host: what the SSH configuration says of it, and what is kept beside
/// that. Two hosts are the same host where their aliases are the same.
#[derive(Debug, Clone)]
pub struct Host {
    /// The alias, by which the host is told from the others.
    pub host: String,
    /// The address or domain name.
    pub hostname: String,
    pub user: Option<String>,
    /// The port; 22 where none is given.
    pub port: Option<u16>,
    /// The paths of the private keys.
    pub identity_file: Option<Vec<String>>,
    pub proxy_jump: Option<String>,
    pub note: Option<String>,
    pub tags: Vec<String>,
    pub ssh_flags: Vec<String>,
    /// The shell to run once connected.
    pub shell: Option<String>,
    /// When the host was last connected to, in milliseconds since the epoch.
    pub last_used: Option<i64>,
}

/// A host, as contracts see it.
pub struct HostView {
    pub host: Seq<char>,
    pub hostname: Seq<char>,
    pub user: Option<Seq<char>>,
    pub port: Option<u16>,
    pub identity_file: Option<Seq<Seq<char>>>,
    pub proxy_jump: Option<Seq<char>>,
    pub note: Option<Seq<char>>,
    pub tags: Seq<Seq<char>>,
    pub ssh_flags: Seq<Seq<char>>,
    pub shell: Option<Seq<char>>,
    pub last_used: Option<i64>,
}

impl View for Host {
    type V = HostView;

    open spec fn view(&self) -> HostView {
        HostView {
            host: self.host@,
            hostname: self.hostname@,
            user: opt_view(self.user),
            port: self.port,
            identity_file: opt_views(self.identity_file),
            proxy_jump: opt_view(self.proxy_jump),
            note: opt_view(self.note),
            tags: views(self.tags@),
            ssh_flags: views(self.ssh_flags@),
            shell: opt_view(self.shell),
            last_used: self.last_used,
        }
    }
}

impl PartialEq for Host {
    fn eq(&self, other: &Self) -> (r: bool) {
        self.host == other.host
    }
}

impl vstd::std_specs::cmp::PartialEqSpecImpl for Host {
    open spec fn obeys_eq_spec() -> bool {
        true
    }

    open spec fn eq_spec(&self, other: &Self) -> bool {
        self.host@ == other.host@
    }
}

impl Eq for Host {

}

/// A host of the given alias and address with nothing else set.
pub open spec fn blank_host(host: Seq<char>, hostname: Seq<char>) -> HostView {
    HostView {
        host,
        hostname,
        user: None,
        port: None,
        identity_file: None,
        proxy_jump: None,
        note: None,
        tags: Seq::empty(),
        ssh_flags: Seq::empty(),
        shell: None,
        last_used: None,
    }
}

/// Whether an optional text holds `q`.
pub open spec fn opt_holds(o: Option<Seq<char>>, q: Seq<char>) -> bool {
    match o {
        Some(s) => contains(lowercase(s), q),
        None => false,
    }
}

/// Whether a host answers a search for the query `q`, given in lower case: its
/// alias, address, user, note or one of its tags holds the query, letter case
/// aside.
pub open spec fn host_hit(h: HostView, q: Seq<char>) -> bool {
    contains(lowercase(h.host), q) || contains(lowercase(h.hostname), q) || opt_holds(h.user, q)
        || opt_holds(h.note, q) || exists|i: int|
        0 <= i < h.tags.len() && contains(lowercase(#[trigger] h.tags[i]), q)
}

/// Whether a host has one of the tags; with no tags asked for, every host
/// has.
pub open spec fn tagged_with_any(h: HostView, tags: Seq<Seq<char>>) -> bool {
    tags.len() == 0 || exists|i: int| 0 <= i < tags.len() && h.tags.contains(#[trigger] tags[i])
}

/// Whether the lower-case form of `s` holds `q`.
fn holds(s: &str, q: &Vec<char>) -> (r: bool)
    ensures
        r == contains(lowercase(s@), q@),
{
    let l = chars_of(to_lowercase(s).as_str());
    proof {
        lemma_find(l@, q@);
    }
    find_in(&l, q).is_some()
}

impl Host {
    /// A host of the given alias and address with nothing else set.
    pub fn new(host: String, hostname: String) -> (r: Host)
        ensures
            r@ == blank_host(host@, hostname@),
    {
        let r = Host {
            host,
            hostname,
            user: None,
            port: None,
            identity_file: None,
            proxy_jump: None,
            note: None,
            tags: Vec::new(),
            ssh_flags: Vec::new(),
            shell: None,
            last_used: None,
        };
        assert(r@.tags == Seq::<Seq<char>>::empty());
        assert(r@.ssh_flags == Seq::<Seq<char>>::empty());
        r
    }

    /// A copy of the host.
    pub fn duplicate(&self) -> (r: Host)
        ensures
            r@ == self@,
    {
        Host {
            host: self.host.clone(),
            hostname: self.hostname.clone(),
            user: copy_opt(&self.user),
            port: self.port,
            identity_file: copy_opt_strings(&self.identity_file),
            proxy_jump: copy_opt(&self.proxy_jump),
            note: copy_opt(&self.note),
            tags: copy_strings(&self.tags),
            ssh_flags: copy_strings(&self.ssh_flags),
            shell: copy_opt(&self.shell),
            last_used: self.last_used,
        }
    }

    /// The port to connect to: 22 where none is set.
    pub fn effective_port(&self) -> (r: u16)
        ensures
            r == (match self.port {
                Some(p) => p,
                None => 22u16,
            }),
    {
        match self.port {
            Some(p) => p,
            None => 22,
        }
    }

    /// Whether a key is set for the host.
    pub fn has_keys(&self) -> (r: bool)
        ensures
            r == (match self@.identity_file {
                Some(keys) => keys.len() > 0,
                None => false,
            }),
    {
        match &self.identity_file {
            Some(keys) => {
                assert(views(keys@).len() == keys.len());
                keys.len() > 0
            },
            None => false,
        }
    }

    /// Sets the time of the last connection to `millis`.
    pub fn mark_used_at(&mut self, millis: i64)
        ensures
            final(self)@ == (HostView { last_used: Some(millis), ..old(self)@ }),
    {
        self.last_used = Some(millis);
    }

    /// Sets the time of the last connection to the present.
    pub fn mark_used(&mut self)
        ensures
            final(self)@.last_used is Some,
            final(self)@ == (HostView { last_used: final(self)@.last_used, ..old(self)@ }),
    {
        let now = now_millis();
        self.mark_used_at(now);
    }

    /// Whether the host answers a search for `query`.
    pub fn matches_search(&self, query: &str) -> (r: bool)
        ensures
            r == host_hit(self@, lowercase(query@)),
    {
        let q = chars_of(to_lowercase(query).as_str());
        if holds(self.host.as_str(), &q) || holds(self.hostname.as_str(), &q) {
            return true;
        }
        let in_user = match &self.user {
            Some(u) => holds(u.as_str(), &q),
            None => false,
        };
        let in_note = match &self.note {
            Some(n) => holds(n.as_str(), &q),
            None => false,
        };
        if in_user || in_note {
            return true;
        }
        let mut i: usize = 0;
        while i < self.tags.len()
            invariant
                i <= self.tags.len(),
                q@ == lowercase(query@),
                forall|j: int| 0 <= j < i ==> !contains(lowercase(#[trigger] self@.tags[j]), q@),
            decreases self.tags.len() - i,
        {
            assert(self@.tags[i as int] == self.tags@[i as int]@);
            if holds(self.tags[i].as_str(), &q) {
                assert(0 <= i < self@.tags.len() && contains(lowercase(self@.tags[i as int]), q@));
                return true;
            }
            i += 1;
        }
        false
    }

    /// Whether the host has one of the tags; with no tags asked for, every
    /// host has.
    pub fn has_any_tag(&self, tags: &Vec<String>) -> (r: bool)
        ensures
            r == tagged_with_any(self@, views(tags@)),
    {
        if tags.len() == 0 {
            return true;
        }
        let mut i: usize = 0;
        while i < tags.len()
            invariant
                i <= tags.len(),
                forall|j: int| 0 <= j < i ==> !self@.tags.contains(#[trigger] views(tags@)[j]),
            decreases tags.len() - i,
        {
            assert(views(tags@)[i as int] == tags@[i as int]@);
            if has_string(&self.tags, tags[i].as_str()) {
                return true;
            }
            i += 1;
        }
        false
    }
}

/// Asks `chrono::Utc::now` for the present time and gives it in milliseconds
/// since the epoch. Nothing is claimed of the value.
#[verifier::external_body]
pub(crate) fn now_millis() -> i64 {
    chrono::Utc::now().timestamp_millis()
}

} // verus!
