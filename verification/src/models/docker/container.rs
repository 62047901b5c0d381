//! Containers as `docker ps` lists them.

use crate::number::{decimal, parse_i32, push_decimal, read_i32};
use crate::search::{
    begins_with, contains, find_in, has_str, join, join_with, lemma_find, split, split_str,
    starts_with,
};
use crate::text::{chars_of, copy_strings, lowercase, opt_view, string_of, to_lowercase, views};
use vstd::prelude::*;

verus! {

/// What state a container is in.
#[derive(Debug, Clone, PartialEq, Eq)]
pub enum ContainerStatus {
    Running,
    Stopped,
    Paused,
    Restarting,
    Exited(i32),
    Dead,
    Unknown(String),
}

/// A container's state, as contracts see it.
pub enum StatusView {
    Running,
    Stopped,
    Paused,
    Restarting,
    Exited(i32),
    Dead,
    Unknown(Seq<char>),
}

impl View for ContainerStatus {
    type V = StatusView;

    open spec fn view(&self) -> StatusView {
        match self {
            ContainerStatus::Running => StatusView::Running,
            ContainerStatus::Stopped => StatusView::Stopped,
            ContainerStatus::Paused => StatusView::Paused,
            ContainerStatus::Restarting => StatusView::Restarting,
            ContainerStatus::Exited(code) => StatusView::Exited(*code),
            ContainerStatus::Dead => StatusView::Dead,
            ContainerStatus::Unknown(text) => StatusView::Unknown(text@),
        }
    }
}

/// The exit code in a lower-case status text: the number between the first
/// `(` and the `)` that follows it.
pub open spec fn exit_code(lower: Seq<char>) -> Option<i32> {
    let parts = split(lower, seq!['(']);
    if parts.len() < 2 {
        None
    } else {
        parse_i32(split(parts[1], seq![')'])[0])
    }
}

/// The state that a status text stands for, given the text and its lower-case
/// form.
pub open spec fn classify(status: Seq<char>, lower: Seq<char>) -> StatusView {
    if starts_with(lower, "up"@) {
        StatusView::Running
    } else if starts_with(lower, "exited"@) {
        match exit_code(lower) {
            Some(code) => StatusView::Exited(code),
            None => StatusView::Stopped,
        }
    } else if contains(lower, "paused"@) {
        StatusView::Paused
    } else if contains(lower, "restarting"@) {
        StatusView::Restarting
    } else if contains(lower, "dead"@) {
        StatusView::Dead
    } else {
        StatusView::Unknown(status)
    }
}

/// The label under which a state is shown.
pub open spec fn status_label(status: StatusView) -> Seq<char> {
    match status {
        StatusView::Running => "Up"@,
        StatusView::Stopped => "Stopped"@,
        StatusView::Paused => "Paused"@,
        StatusView::Restarting => "Restarting"@,
        StatusView::Exited(_) => "Exited"@,
        StatusView::Dead => "Dead"@,
        StatusView::Unknown(_) => "Unknown"@,
    }
}

impl ContainerStatus {
    /// The exit code in a lower-case status text.
    pub fn read_exit_code(lower: &Vec<char>) -> (r: Option<i32>)
        ensures
            r == exit_code(lower@),
    {
        proof {
            reveal_strlit("(");
            reveal_strlit(")");
            assert("("@ =~= seq!['(']);
            assert(")"@ =~= seq![')']);
        }
        let parts = split_str(lower, "(");
        assert(views(parts@).len() == parts.len());
        if parts.len() < 2 {
            return None;
        }
        let inner = split_str(&parts[1], ")");
        assert(views(parts@)[1] == parts@[1]@);
        assert(views(inner@)[0] == inner@[0]@);
        read_i32(&inner[0])
    }

    /// The state that `status` stands for, where `lower` is its lower-case form.
    pub fn from_lowercase(status: &str, lower: &str) -> (r: ContainerStatus)
        ensures
            r@ == classify(status@, lower@),
    {
        let l = chars_of(lower);
        if begins_with(&l, "up") {
            ContainerStatus::Running
        } else if begins_with(&l, "exited") {
            match ContainerStatus::read_exit_code(&l) {
                Some(code) => ContainerStatus::Exited(code),
                None => ContainerStatus::Stopped,
            }
        } else if has_str(&l, "paused") {
            ContainerStatus::Paused
        } else if has_str(&l, "restarting") {
            ContainerStatus::Restarting
        } else if has_str(&l, "dead") {
            ContainerStatus::Dead
        } else {
            ContainerStatus::Unknown(string_of(&chars_of(status)))
        }
    }

    /// The state that the status column of `docker ps` stands for. Letter case
    /// does not count.
    pub fn from_docker_status(status: &str) -> (r: ContainerStatus)
        ensures
            r@ == classify(status@, lowercase(status@)),
    {
        let lower = to_lowercase(status);
        ContainerStatus::from_lowercase(status, lower.as_str())
    }

    /// A copy of the state.
    pub fn duplicate(&self) -> (r: ContainerStatus)
        ensures
            r@ == self@,
    {
        match self {
            ContainerStatus::Running => ContainerStatus::Running,
            ContainerStatus::Stopped => ContainerStatus::Stopped,
            ContainerStatus::Paused => ContainerStatus::Paused,
            ContainerStatus::Restarting => ContainerStatus::Restarting,
            ContainerStatus::Exited(code) => ContainerStatus::Exited(*code),
            ContainerStatus::Dead => ContainerStatus::Dead,
            ContainerStatus::Unknown(text) => ContainerStatus::Unknown(text.clone()),
        }
    }

    /// The label under which the state is shown.
    pub fn display(&self) -> (r: &'static str)
        ensures
            r@ == status_label(self@),
    {
        match self {
            ContainerStatus::Running => "Up",
            ContainerStatus::Stopped => "Stopped",
            ContainerStatus::Paused => "Paused",
            ContainerStatus::Restarting => "Restarting",
            ContainerStatus::Exited(_) => "Exited",
            ContainerStatus::Dead => "Dead",
            ContainerStatus::Unknown(_) => "Unknown",
        }
    }

    /// Whether the container runs.
    pub fn is_running(&self) -> (r: bool)
        ensures
            r == (self@ is Running),
    {
        match self {
            ContainerStatus::Running => true,
            _ => false,
        }
    }
}

/// A port of the host mapped to a port of the container.
#[derive(Debug, Clone, PartialEq, Eq)]
pub struct PortMapping {
    pub host_port: u16,
    pub container_port: u16,
    pub protocol: String,
}

/// A port mapping, as contracts see it.
pub struct PortView {
    pub host_port: u16,
    pub container_port: u16,
    pub protocol: Seq<char>,
}

impl View for PortMapping {
    type V = PortView;

    open spec fn view(&self) -> PortView {
        PortView {
            host_port: self.host_port,
            container_port: self.container_port,
            protocol: self.protocol@,
        }
    }
}

/// A port mapping written as host port, colon, container port.
pub open spec fn port_label(p: PortView) -> Seq<char> {
    decimal(p.host_port as nat) + seq![':'] + decimal(p.container_port as nat)
}

impl PortMapping {
    /// The mapping written as host port, colon, container port.
    pub fn display_chars(&self) -> (r: Vec<char>)
        ensures
            r@ == port_label(self@),
    {
        let mut out: Vec<char> = Vec::new();
        push_decimal(&mut out, self.host_port as u64);
        out.push(':');
        push_decimal(&mut out, self.container_port as u64);
        assert(out@ == port_label(self@));
        out
    }

    /// The mapping written as host port, colon, container port.
    pub fn display(&self) -> (r: String)
        ensures
            r@ == port_label(self@),
    {
        string_of(&self.display_chars())
    }

    /// A copy of the mapping.
    pub fn duplicate(&self) -> (r: PortMapping)
        ensures
            r@ == self@,
    {
        PortMapping {
            host_port: self.host_port,
            container_port: self.container_port,
            protocol: self.protocol.clone(),
        }
    }
}

/// A container on a host.
#[derive(Debug, Clone, PartialEq, Eq)]
pub struct Container {
    pub id: String,
    pub name: String,
    pub image: String,
    pub status: ContainerStatus,
    pub ports: Vec<PortMapping>,
    /// When the container was created, in seconds since the epoch.
    pub created: Option<i64>,
    pub server_name: String,
    pub script_path: Option<String>,
    pub networks: Vec<String>,
}

/// A container, as contracts see it.
pub struct ContainerView {
    pub id: Seq<char>,
    pub name: Seq<char>,
    pub image: Seq<char>,
    pub status: StatusView,
    pub ports: Seq<PortView>,
    pub created: Option<i64>,
    pub server_name: Seq<char>,
    pub script_path: Option<Seq<char>>,
    pub networks: Seq<Seq<char>>,
}

impl View for Container {
    type V = ContainerView;

    open spec fn view(&self) -> ContainerView {
        ContainerView {
            id: self.id@,
            name: self.name@,
            image: self.image@,
            status: self.status@,
            ports: views(self.ports@),
            created: self.created,
            server_name: self.server_name@,
            script_path: opt_view(self.script_path),
            networks: views(self.networks@),
        }
    }
}

/// The labels of the port mappings, in order.
pub open spec fn port_labels(ports: Seq<PortView>) -> Seq<Seq<char>> {
    Seq::new(ports.len(), |i: int| port_label(ports[i]))
}

/// What is shown for a container's ports: a dash where it has none, else the
/// labels with a comma and a space between them.
pub open spec fn ports_label(ports: Seq<PortView>) -> Seq<char> {
    if ports.len() == 0 {
        "-"@
    } else {
        join(port_labels(ports), ", "@)
    }
}

/// An image reference without registry path and tag: what stands after the
/// last `/` and before the first `:` that follows.
pub open spec fn image_short_name(image: Seq<char>) -> Seq<char> {
    split(split(image, seq!['/']).last(), seq![':'])[0]
}

/// Whether a container answers a search, given the lower-case forms of its
/// name, image and identifier and of the query.
pub open spec fn search_hit(
    name: Seq<char>,
    image: Seq<char>,
    id: Seq<char>,
    query: Seq<char>,
) -> bool {
    contains(name, query) || contains(image, query) || starts_with(id, query)
}

/// A copy of the port mappings, in order.
pub fn copy_ports(ports: &Vec<PortMapping>) -> (r: Vec<PortMapping>)
    ensures
        views(r@) == views(ports@),
{
    let mut out: Vec<PortMapping> = Vec::new();
    let mut i: usize = 0;
    while i < ports.len()
        invariant
            i <= ports.len(),
            views(out@) == views(ports@).take(i as int),
        decreases ports.len() - i,
    {
        let ghost before = views(out@);
        out.push(ports[i].duplicate());
        i += 1;
        assert(views(out@) == before.push(ports@[i - 1]@));
        assert(views(out@) == views(ports@).take(i as int));
    }
    assert(views(ports@).take(ports.len() as int) == views(ports@));
    out
}

impl Container {
    /// A copy of the container, linked to the script at `script_path`.
    pub fn with_script(&self, script_path: Option<String>) -> (r: Container)
        ensures
            r@ == (ContainerView { script_path: opt_view(script_path), ..self@ }),
    {
        Container {
            id: self.id.clone(),
            name: self.name.clone(),
            image: self.image.clone(),
            status: self.status.duplicate(),
            ports: copy_ports(&self.ports),
            created: self.created,
            server_name: self.server_name.clone(),
            script_path,
            networks: copy_strings(&self.networks),
        }
    }

    /// Whether a deployment script is linked to the container.
    pub fn has_script(&self) -> (r: bool)
        ensures
            r == self@.script_path.is_some(),
    {
        self.script_path.is_some()
    }

    /// What is shown for the container's ports.
    pub fn ports_display(&self) -> (r: String)
        ensures
            r@ == ports_label(self@.ports),
    {
        if self.ports.len() == 0 {
            return string_of(&chars_of("-"));
        }
        let mut labels: Vec<Vec<char>> = Vec::new();
        let mut i: usize = 0;
        while i < self.ports.len()
            invariant
                i <= self.ports.len(),
                views(labels@) == port_labels(self@.ports).take(i as int),
            decreases self.ports.len() - i,
        {
            let ghost before = views(labels@);
            let label = self.ports[i].display_chars();
            labels.push(label);
            i += 1;
            assert(views(labels@) == before.push(port_label(self.ports@[i - 1]@)));
            assert(views(labels@) == port_labels(self@.ports).take(i as int));
        }
        assert(port_labels(self@.ports).take(self.ports.len() as int) == port_labels(
            self@.ports,
        ));
        string_of(&join_with(&labels, ", "))
    }

    /// The image's name without registry path and tag.
    pub fn short_image(&self) -> (r: String)
        ensures
            r@ == image_short_name(self@.image),
    {
        proof {
            reveal_strlit("/");
            reveal_strlit(":");
            assert("/"@ =~= seq!['/']);
            assert(":"@ =~= seq![':']);
        }
        let image = chars_of(self.image.as_str());
        let segments = split_str(&image, "/");
        let last = &segments[segments.len() - 1];
        assert(views(segments@).last() == last@);
        let pieces = split_str(last, ":");
        assert(views(pieces@)[0] == pieces@[0]@);
        string_of(&pieces[0])
    }

    /// Whether the container answers a search for `query`: its name or image
    /// holds the query, or its identifier begins with it, letter case aside.
    pub fn matches_search(&self, query: &str) -> (r: bool)
        ensures
            r == search_hit(
                lowercase(self@.name),
                lowercase(self@.image),
                lowercase(self@.id),
                lowercase(query@),
            ),
    {
        let q = chars_of(to_lowercase(query).as_str());
        let name = chars_of(to_lowercase(self.name.as_str()).as_str());
        let image = chars_of(to_lowercase(self.image.as_str()).as_str());
        let id = chars_of(to_lowercase(self.id.as_str()).as_str());
        proof {
            lemma_find(name@, q@);
            lemma_find(image@, q@);
        }
        let in_name = find_in(&name, &q).is_some();
        let in_image = find_in(&image, &q).is_some();
        in_name || in_image || crate::search::occurs_at_index(&id, &q, 0)
    }
}

} // verus!
