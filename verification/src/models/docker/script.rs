//! Deployment scripts and what else is read from a Docker host.

use crate::search::{begins_with, contains, ends_with, finishes_with, has_str, starts_with};
use crate::text::{
    append_str, chars_of, copy_opt, copy_str, opt_view, str_eq, string_of, to_uppercase, uppercase,
    views,
};
use super::container::{copy_ports, PortMapping, PortView};
use vstd::prelude::*;
use vstd::utf8::{decode_utf8, encode_utf8, is_char_boundary};

verus! {

/// An environment variable that a script hands to its container.
#[derive(Debug, Clone, PartialEq, Eq)]
pub struct EnvVar {
    pub key: String,
    pub value: String,
    /// Whether the value is masked when shown.
    pub is_secret: bool,
}

/// An environment variable, as contracts see it.
pub struct EnvVarView {
    pub key: Seq<char>,
    pub value: Seq<char>,
    pub is_secret: bool,
}

impl View for EnvVar {
    type V = EnvVarView;

    open spec fn view(&self) -> EnvVarView {
        EnvVarView { key: self.key@, value: self.value@, is_secret: self.is_secret }
    }
}

/// Whether a key, in upper case, names something to keep from view.
pub open spec fn secret_key(upper: Seq<char>) -> bool {
    contains(upper, "PASSWORD"@) || contains(upper, "SECRET"@) || contains(upper, "TOKEN"@)
        || contains(upper, "KEY"@) || contains(upper, "CREDENTIAL"@) || contains(
        upper,
        "PRIVATE"@,
    )
}

/// What is shown in place of a secret value.
pub open spec fn mask() -> Seq<char> {
    "••••••••••••"@
}

/// What is shown for a variable's value.
pub open spec fn shown_value(e: EnvVarView) -> Seq<char> {
    if e.is_secret {
        mask()
    } else {
        e.value
    }
}

/// A text cut to at most `max_len` bytes of UTF-8: unchanged where it fits,
/// else its first `max_len - 3` bytes and three dots.
pub open spec fn truncated(text: Seq<char>, max_len: int) -> Seq<char> {
    if encode_utf8(text).len() > max_len {
        decode_utf8(encode_utf8(text).subrange(0, max_len - 3)) + "..."@
    } else {
        text
    }
}

impl EnvVar {
    /// Whether a key, given in upper case, names something to keep from view.
    pub fn is_secret_upper(upper: &str) -> (r: bool)
        ensures
            r == secret_key(upper@),
    {
        let u = chars_of(upper);
        has_str(&u, "PASSWORD") || has_str(&u, "SECRET") || has_str(&u, "TOKEN") || has_str(
            &u,
            "KEY",
        ) || has_str(&u, "CREDENTIAL") || has_str(&u, "PRIVATE")
    }

    /// Whether `key` names something to keep from view, letter case aside.
    pub fn detect_secret(key: &str) -> (r: bool)
        ensures
            r == secret_key(uppercase(key@)),
    {
        let upper = to_uppercase(key);
        EnvVar::is_secret_upper(upper.as_str())
    }

    /// A variable with the given key and value, marked secret by its key.
    pub fn new(key: String, value: String) -> (r: EnvVar)
        ensures
            r@ == (EnvVarView {
                key: key@,
                value: value@,
                is_secret: secret_key(uppercase(key@)),
            }),
    {
        let is_secret = EnvVar::detect_secret(key.as_str());
        EnvVar { key, value, is_secret }
    }

    /// What is shown for the value: a mask where the variable is secret.
    pub fn display_value(&self) -> (r: String)
        ensures
            r@ == shown_value(self@),
    {
        if self.is_secret {
            copy_str("••••••••••••")
        } else {
            self.value.clone()
        }
    }

    /// What is shown for the value in at most `max_len` bytes.
    pub fn display_value_truncated(&self, max_len: usize) -> (r: String)
        requires
            encode_utf8(shown_value(self@)).len() <= usize::MAX,
            encode_utf8(shown_value(self@)).len() > max_len ==> max_len >= 3 && is_char_boundary(
                encode_utf8(shown_value(self@)),
                max_len - 3,
            ),
        ensures
            r@ == truncated(shown_value(self@), max_len as int),
    {
        let value = self.display_value();
        if value.as_str().len() > max_len {
            let (head, _) = value.as_str().split_at(max_len - 3);
            proof {
                vstd::utf8::encode_utf8_decode_utf8(head@);
                assert(encode_utf8(head@) == encode_utf8(value@).subrange(0, max_len - 3));
            }
            let mut out = chars_of(head);
            append_str(&mut out, "...");
            string_of(&out)
        } else {
            value
        }
    }

    /// A copy of the variable.
    pub fn duplicate(&self) -> (r: EnvVar)
        ensures
            r@ == self@,
    {
        EnvVar { key: self.key.clone(), value: self.value.clone(), is_secret: self.is_secret }
    }
}

/// A path of the host mounted into the container.
#[derive(Debug, Clone, PartialEq, Eq)]
pub struct VolumeMount {
    pub host_path: String,
    pub container_path: String,
    pub read_only: bool,
}

/// A volume mount, as contracts see it.
pub struct VolumeView {
    pub host_path: Seq<char>,
    pub container_path: Seq<char>,
    pub read_only: bool,
}

impl View for VolumeMount {
    type V = VolumeView;

    open spec fn view(&self) -> VolumeView {
        VolumeView {
            host_path: self.host_path@,
            container_path: self.container_path@,
            read_only: self.read_only,
        }
    }
}

/// A mount written as host path, arrow, container path, with `:ro` where it is
/// read-only.
pub open spec fn volume_label(v: VolumeView) -> Seq<char> {
    v.host_path + " -> "@ + v.container_path + (if v.read_only {
        ":ro"@
    } else {
        Seq::empty()
    })
}

impl VolumeMount {
    /// The mount written for display.
    pub fn display(&self) -> (r: String)
        ensures
            r@ == volume_label(self@),
    {
        let mut out = chars_of(self.host_path.as_str());
        append_str(&mut out, " -> ");
        append_str(&mut out, self.container_path.as_str());
        if self.read_only {
            append_str(&mut out, ":ro");
        }
        assert(out@ == volume_label(self@));
        string_of(&out)
    }

    /// A copy of the mount.
    pub fn duplicate(&self) -> (r: VolumeMount)
        ensures
            r@ == self@,
    {
        VolumeMount {
            host_path: self.host_path.clone(),
            container_path: self.container_path.clone(),
            read_only: self.read_only,
        }
    }
}

/// A shell script that pulls an image and recreates a container from it.
#[derive(Debug, Clone, PartialEq, Eq)]
pub struct DeploymentScript {
    pub path: String,
    pub client_name: String,
    pub container_name: String,
    pub repo: String,
    pub env_vars: Vec<EnvVar>,
    pub volumes: Vec<VolumeMount>,
    pub network: Option<String>,
    pub ports: Vec<PortMapping>,
    pub restart_policy: Option<String>,
    /// The script's text as it stands on the host.
    pub raw_content: String,
    /// When the script was last changed, in seconds since the epoch.
    pub last_modified: Option<i64>,
}

/// A deployment script, as contracts see it.
pub struct ScriptView {
    pub path: Seq<char>,
    pub client_name: Seq<char>,
    pub container_name: Seq<char>,
    pub repo: Seq<char>,
    pub env_vars: Seq<EnvVarView>,
    pub volumes: Seq<VolumeView>,
    pub network: Option<Seq<char>>,
    pub ports: Seq<PortView>,
    pub restart_policy: Option<Seq<char>>,
    pub raw_content: Seq<char>,
    pub last_modified: Option<i64>,
}

impl View for DeploymentScript {
    type V = ScriptView;

    open spec fn view(&self) -> ScriptView {
        ScriptView {
            path: self.path@,
            client_name: self.client_name@,
            container_name: self.container_name@,
            repo: self.repo@,
            env_vars: views(self.env_vars@),
            volumes: views(self.volumes@),
            network: opt_view(self.network),
            ports: views(self.ports@),
            restart_policy: opt_view(self.restart_policy),
            raw_content: self.raw_content@,
            last_modified: self.last_modified,
        }
    }
}

/// A script of the given path and owner with nothing else in it.
pub open spec fn blank_script(path: Seq<char>, client_name: Seq<char>) -> ScriptView {
    ScriptView {
        path,
        client_name,
        container_name: Seq::empty(),
        repo: Seq::empty(),
        env_vars: Seq::empty(),
        volumes: Seq::empty(),
        network: None,
        ports: Seq::empty(),
        restart_policy: None,
        raw_content: Seq::empty(),
        last_modified: None,
    }
}

/// Whether `i` is the first index at which `vars` holds the key.
pub open spec fn first_key_at(vars: Seq<EnvVarView>, key: Seq<char>, i: int) -> bool {
    0 <= i < vars.len() && vars[i].key == key && forall|j: int|
        0 <= j < i ==> (#[trigger] vars[j]).key != key
}

/// Whether `vars` holds the key.
pub open spec fn has_key(vars: Seq<EnvVarView>, key: Seq<char>) -> bool {
    exists|i: int| 0 <= i < vars.len() && (#[trigger] vars[i]).key == key
}

/// The variables of `vars` whose key is not `key`, in order.
pub open spec fn without_key(vars: Seq<EnvVarView>, key: Seq<char>) -> Seq<EnvVarView>
    decreases vars.len(),
{
    if vars.len() == 0 {
        Seq::empty()
    } else if vars.last().key == key {
        without_key(vars.drop_last(), key)
    } else {
        without_key(vars.drop_last(), key).push(vars.last())
    }
}

/// Whether no key occurs twice.
pub open spec fn distinct_keys(vars: Seq<EnvVarView>) -> bool {
    forall|i: int, j: int|
        0 <= i < j < vars.len() ==> (#[trigger] vars[i]).key != (#[trigger] vars[j]).key
}

/// Taking a key out leaves the other variables in order, takes the key from
/// among them, and lets no key occur twice that did not before.
pub proof fn lemma_without_key(vars: Seq<EnvVarView>, key: Seq<char>)
    ensures
        !has_key(without_key(vars, key), key),
        forall|i: int|
            0 <= i < without_key(vars, key).len() ==> has_key(
                vars,
                (#[trigger] without_key(vars, key)[i]).key,
            ),
        distinct_keys(vars) ==> distinct_keys(without_key(vars, key)),
    decreases vars.len(),
{
    if vars.len() > 0 {
        let init = vars.drop_last();
        lemma_without_key(init, key);
        let kept = without_key(init, key);
        let out = without_key(vars, key);
        assert forall|i: int| 0 <= i < out.len() implies has_key(vars, (#[trigger] out[i]).key) by {
            if i < kept.len() {
                assert(out[i] == kept[i]);
                let k = choose|k: int| 0 <= k < init.len() && (#[trigger] init[k]).key == kept[i].key;
                assert(vars[k] == init[k]);
            } else {
                assert(out[i] == vars[vars.len() - 1]);
            }
        }
        if distinct_keys(vars) {
            assert forall|i: int, j: int| 0 <= i < j < init.len() implies (#[trigger] init[i]).key
                != (#[trigger] init[j]).key by {
                assert(init[i] == vars[i]);
                assert(init[j] == vars[j]);
            }
            assert forall|i: int, j: int| 0 <= i < j < out.len() implies (#[trigger] out[i]).key
                != (#[trigger] out[j]).key by {
                if j < kept.len() {
                    assert(out[i] == kept[i]);
                    assert(out[j] == kept[j]);
                } else {
                    assert(out[i] == kept[i]);
                    let k = choose|k: int|
                        0 <= k < init.len() && (#[trigger] init[k]).key == kept[i].key;
                    assert(vars[k] == init[k]);
                    assert(vars[k].key != vars[vars.len() - 1].key);
                }
            }
        }
        if has_key(out, key) {
            let k = choose|k: int| 0 <= k < out.len() && (#[trigger] out[k]).key == key;
            if k < kept.len() {
                assert(kept[k] == out[k]);
            }
        }
    }
}

/// The first index at which `vars` holds the key.
pub fn key_index(vars: &Vec<EnvVar>, key: &str) -> (r: Option<usize>)
    ensures
        match r {
            Some(i) => first_key_at(views(vars@), key@, i as int),
            None => !has_key(views(vars@), key@),
        },
{
    let mut i: usize = 0;
    while i < vars.len()
        invariant
            i <= vars.len(),
            forall|j: int| 0 <= j < i ==> (#[trigger] views(vars@)[j]).key != key@,
        decreases vars.len() - i,
    {
        if str_eq(vars[i].key.as_str(), key) {
            return Some(i);
        }
        i += 1;
    }
    None
}

/// A copy of the variables, in order.
pub fn copy_env_vars(vars: &Vec<EnvVar>) -> (r: Vec<EnvVar>)
    ensures
        views(r@) == views(vars@),
{
    let mut out: Vec<EnvVar> = Vec::new();
    let mut i: usize = 0;
    while i < vars.len()
        invariant
            i <= vars.len(),
            views(out@) == views(vars@).take(i as int),
        decreases vars.len() - i,
    {
        let ghost before = views(out@);
        out.push(vars[i].duplicate());
        i += 1;
        assert(views(out@) == before.push(vars@[i - 1]@));
        assert(views(out@) == views(vars@).take(i as int));
    }
    assert(views(vars@).take(vars.len() as int) == views(vars@));
    out
}

/// A copy of the volume mounts, in order.
pub fn copy_volumes(volumes: &Vec<VolumeMount>) -> (r: Vec<VolumeMount>)
    ensures
        views(r@) == views(volumes@),
{
    let mut out: Vec<VolumeMount> = Vec::new();
    let mut i: usize = 0;
    while i < volumes.len()
        invariant
            i <= volumes.len(),
            views(out@) == views(volumes@).take(i as int),
        decreases volumes.len() - i,
    {
        let ghost before = views(out@);
        out.push(volumes[i].duplicate());
        i += 1;
        assert(views(out@) == before.push(volumes@[i - 1]@));
        assert(views(out@) == views(volumes@).take(i as int));
    }
    assert(views(volumes@).take(volumes.len() as int) == views(volumes@));
    out
}

impl DeploymentScript {
    /// Whether the script is well formed: no key of a variable occurs twice.
    pub open spec fn wf(&self) -> bool {
        distinct_keys(self@.env_vars)
    }

    /// A copy of the script.
    pub fn duplicate(&self) -> (r: DeploymentScript)
        ensures
            r@ == self@,
    {
        DeploymentScript {
            path: self.path.clone(),
            client_name: self.client_name.clone(),
            container_name: self.container_name.clone(),
            repo: self.repo.clone(),
            env_vars: copy_env_vars(&self.env_vars),
            volumes: copy_volumes(&self.volumes),
            network: copy_opt(&self.network),
            ports: copy_ports(&self.ports),
            restart_policy: copy_opt(&self.restart_policy),
            raw_content: self.raw_content.clone(),
            last_modified: self.last_modified,
        }
    }

    /// A script of the given path and owner with nothing else in it.
    pub fn new(path: String, client_name: String) -> (r: DeploymentScript)
        ensures
            r@ == blank_script(path@, client_name@),
            r.wf(),
    {
        let r = DeploymentScript {
            path,
            client_name,
            container_name: String::new(),
            repo: String::new(),
            env_vars: Vec::new(),
            volumes: Vec::new(),
            network: None,
            ports: Vec::new(),
            restart_policy: None,
            raw_content: String::new(),
            last_modified: None,
        };
        assert(r@.env_vars == Seq::<EnvVarView>::empty());
        assert(r@.volumes == Seq::<VolumeView>::empty());
        assert(r@.ports == Seq::<PortView>::empty());
        r
    }

    /// Sets the variable `key` to `value`: in place where the script has the
    /// key, else as a new variable at the end.
    pub fn add_env_var(&mut self, key: String, value: String)
        ensures
            forall|i: int| #[trigger]
                first_key_at(old(self)@.env_vars, key@, i) ==> final(self)@ == (ScriptView {
                    env_vars: old(self)@.env_vars.update(
                        i,
                        EnvVarView { value: value@, ..old(self)@.env_vars[i] },
                    ),
                    ..old(self)@
                }),
            !has_key(old(self)@.env_vars, key@) ==> final(self)@ == (ScriptView {
                env_vars: old(self)@.env_vars.push(
                    EnvVarView { key: key@, value: value@, is_secret: secret_key(uppercase(key@)) },
                ),
                ..old(self)@
            }),
            old(self).wf() ==> final(self).wf(),
    {
        let ghost before = self@.env_vars;
        match key_index(&self.env_vars, key.as_str()) {
            Some(i) => {
                let secret = self.env_vars[i].is_secret;
                self.env_vars.set(i, EnvVar { key, value, is_secret: secret });
                proof {
                    let after = before.update(
                        i as int,
                        EnvVarView { value: value@, ..before[i as int] },
                    );
                    assert(self@.env_vars =~= after);
                    assert forall|k: int| #[trigger] first_key_at(before, key@, k) implies k
                        == i by {
                        if k < i {
                            assert(before[k].key != key@);
                        }
                        if i < k {
                            assert(before[i as int].key != key@);
                        }
                    }
                }
            },
            None => {
                self.env_vars.push(EnvVar::new(key, value));
                proof {
                    assert(self@.env_vars =~= before.push(
                        EnvVarView {
                            key: key@,
                            value: value@,
                            is_secret: secret_key(uppercase(key@)),
                        },
                    ));
                    assert forall|k: int| !#[trigger] first_key_at(before, key@, k) by {
                        if first_key_at(before, key@, k) {
                            assert(before[k].key == key@);
                        }
                    }
                }
            },
        }
    }

    /// Takes every variable with the key out of the script.
    pub fn remove_env_var(&mut self, key: &str)
        ensures
            final(self)@ == (ScriptView {
                env_vars: without_key(old(self)@.env_vars, key@),
                ..old(self)@
            }),
            !has_key(final(self)@.env_vars, key@),
            old(self).wf() ==> final(self).wf(),
    {
        proof {
            lemma_without_key(self@.env_vars, key@);
        }
        let mut kept: Vec<EnvVar> = Vec::new();
        let mut i: usize = 0;
        while i < self.env_vars.len()
            invariant
                i <= self.env_vars.len(),
                *self == *old(self),
                views(kept@) == without_key(views(self.env_vars@).take(i as int), key@),
            decreases self.env_vars.len() - i,
        {
            let ghost before = views(kept@);
            if !str_eq(self.env_vars[i].key.as_str(), key) {
                kept.push(self.env_vars[i].duplicate());
                assert(views(kept@) == before.push(self.env_vars@[i as int]@));
            }
            i += 1;
            proof {
                let cur = views(self.env_vars@).take(i as int);
                assert(cur.drop_last() == views(self.env_vars@).take(i - 1));
                assert(cur.last() == self.env_vars@[i - 1]@);
            }
        }
        assert(views(self.env_vars@).take(self.env_vars.len() as int) == views(self.env_vars@));
        self.env_vars = kept;
    }

    /// The first variable with the key.
    pub fn get_env_var(&self, key: &str) -> (r: Option<&EnvVar>)
        ensures
            match r {
                Some(e) => exists|i: int|
                    first_key_at(self@.env_vars, key@, i) && *e == self.env_vars@[i],
                None => !has_key(self@.env_vars, key@),
            },
    {
        match key_index(&self.env_vars, key) {
            Some(i) => Some(&self.env_vars[i]),
            None => None,
        }
    }
}

/// What `docker stats` tells of a container, each figure as text.
#[derive(Debug, Clone, PartialEq, Eq)]
pub struct ContainerStats {
    pub cpu_percent: String,
    pub memory_usage: String,
    pub memory_limit: String,
    pub memory_percent: String,
    pub net_io: String,
    pub block_io: String,
    pub pids: String,
}

/// Container statistics, as contracts see them.
pub struct StatsView {
    pub cpu_percent: Seq<char>,
    pub memory_usage: Seq<char>,
    pub memory_limit: Seq<char>,
    pub memory_percent: Seq<char>,
    pub net_io: Seq<char>,
    pub block_io: Seq<char>,
    pub pids: Seq<char>,
}

impl View for ContainerStats {
    type V = StatsView;

    open spec fn view(&self) -> StatsView {
        StatsView {
            cpu_percent: self.cpu_percent@,
            memory_usage: self.memory_usage@,
            memory_limit: self.memory_limit@,
            memory_percent: self.memory_percent@,
            net_io: self.net_io@,
            block_io: self.block_io@,
            pids: self.pids@,
        }
    }
}

impl Default for ContainerStats {
    fn default() -> (r: ContainerStats)
        ensures
            r@ == (StatsView {
                cpu_percent: Seq::empty(),
                memory_usage: Seq::empty(),
                memory_limit: Seq::empty(),
                memory_percent: Seq::empty(),
                net_io: Seq::empty(),
                block_io: Seq::empty(),
                pids: Seq::empty(),
            }),
    {
        ContainerStats {
            cpu_percent: String::new(),
            memory_usage: String::new(),
            memory_limit: String::new(),
            memory_percent: String::new(),
            net_io: String::new(),
            block_io: String::new(),
            pids: String::new(),
        }
    }
}

/// A process in a container, as `docker top` lists it.
#[derive(Debug, Clone, PartialEq, Eq)]
pub struct ProcessInfo {
    pub pid: String,
    pub user: String,
    pub cpu: String,
    pub mem: String,
    pub command: String,
}

/// A process, as contracts see it.
pub struct ProcessView {
    pub pid: Seq<char>,
    pub user: Seq<char>,
    pub cpu: Seq<char>,
    pub mem: Seq<char>,
    pub command: Seq<char>,
}

impl View for ProcessInfo {
    type V = ProcessView;

    open spec fn view(&self) -> ProcessView {
        ProcessView {
            pid: self.pid@,
            user: self.user@,
            cpu: self.cpu@,
            mem: self.mem@,
            command: self.command@,
        }
    }
}

/// What `docker inspect` tells of a container.
#[derive(Debug, Clone, PartialEq, Eq)]
pub struct ContainerInfo {
    pub id: String,
    pub name: String,
    pub image: String,
    pub status: String,
    pub created: String,
    pub started: String,
    pub ip_address: String,
    pub networks: Vec<String>,
    pub ports: Vec<String>,
    pub volumes: Vec<String>,
    pub restart_policy: String,
    pub health_status: Option<String>,
    pub labels: Vec<(String, String)>,
}

/// The fields of an inspection that its summary fills, as contracts see them.
pub struct InfoView {
    pub id: Seq<char>,
    pub name: Seq<char>,
    pub image: Seq<char>,
    pub status: Seq<char>,
    pub created: Seq<char>,
    pub started: Seq<char>,
    pub ip_address: Seq<char>,
}

/// An inspection with nothing in it.
pub open spec fn blank_info() -> InfoView {
    InfoView {
        id: Seq::empty(),
        name: Seq::empty(),
        image: Seq::empty(),
        status: Seq::empty(),
        created: Seq::empty(),
        started: Seq::empty(),
        ip_address: Seq::empty(),
    }
}

impl ContainerInfo {
    /// Whether the lists and the other fields outside the summary are empty.
    pub open spec fn rest_is_blank(&self) -> bool {
        &&& self.networks@.len() == 0
        &&& self.ports@.len() == 0
        &&& self.volumes@.len() == 0
        &&& self.restart_policy@.len() == 0
        &&& self.health_status is None
        &&& self.labels@.len() == 0
    }
}

impl View for ContainerInfo {
    type V = InfoView;

    open spec fn view(&self) -> InfoView {
        InfoView {
            id: self.id@,
            name: self.name@,
            image: self.image@,
            status: self.status@,
            created: self.created@,
            started: self.started@,
            ip_address: self.ip_address@,
        }
    }
}

impl Default for ContainerInfo {
    fn default() -> (r: ContainerInfo)
        ensures
            r@ == blank_info(),
            r.rest_is_blank(),
    {
        ContainerInfo {
            id: String::new(),
            name: String::new(),
            image: String::new(),
            status: String::new(),
            created: String::new(),
            started: String::new(),
            ip_address: String::new(),
            networks: Vec::new(),
            ports: Vec::new(),
            volumes: Vec::new(),
            restart_policy: String::new(),
            health_status: None,
            labels: Vec::new(),
        }
    }
}

/// An entry of a directory on the host.
#[derive(Debug, Clone, PartialEq, Eq)]
pub struct FileEntry {
    pub name: String,
    pub is_dir: bool,
    pub is_script: bool,
}

/// A directory entry, as contracts see it.
pub struct EntryView {
    pub name: Seq<char>,
    pub is_dir: bool,
    pub is_script: bool,
}

impl View for FileEntry {
    type V = EntryView;

    open spec fn view(&self) -> EntryView {
        EntryView { name: self.name@, is_dir: self.is_dir, is_script: self.is_script }
    }
}

/// The entry of the given name: a file counts as a script where its name ends
/// in `.sh` or begins with `start`.
pub open spec fn entry_of(name: Seq<char>, is_dir: bool) -> EntryView {
    EntryView {
        name,
        is_dir,
        is_script: !is_dir && (ends_with(name, ".sh"@) || starts_with(name, "start"@)),
    }
}

/// The entry that leads to the parent directory.
pub open spec fn parent_entry() -> EntryView {
    EntryView { name: ".."@, is_dir: true, is_script: false }
}

impl FileEntry {
    /// The entry of the given name.
    pub fn new(name: String, is_dir: bool) -> (r: FileEntry)
        ensures
            r@ == entry_of(name@, is_dir),
    {
        let n = chars_of(name.as_str());
        let is_script = !is_dir && (finishes_with(&n, ".sh") || begins_with(&n, "start"));
        FileEntry { name, is_dir, is_script }
    }

    /// A copy of the entry.
    pub fn duplicate(&self) -> (r: FileEntry)
        ensures
            r@ == self@,
    {
        FileEntry { name: self.name.clone(), is_dir: self.is_dir, is_script: self.is_script }
    }

    /// The entry that leads to the parent directory.
    pub fn parent() -> (r: FileEntry)
        ensures
            r@ == parent_entry(),
    {
        FileEntry { name: copy_str(".."), is_dir: true, is_script: false }
    }
}

/// A project directory on the host and the scripts found under it.
#[derive(Debug, Clone, PartialEq, Eq)]
pub struct Project {
    pub name: String,
    pub path: String,
    pub scripts: Vec<DeploymentScript>,
}

/// A project, as contracts see it.
pub struct ProjectView {
    pub name: Seq<char>,
    pub path: Seq<char>,
    pub scripts: Seq<ScriptView>,
}

impl View for Project {
    type V = ProjectView;

    open spec fn view(&self) -> ProjectView {
        ProjectView { name: self.name@, path: self.path@, scripts: views(self.scripts@) }
    }
}

/// Whether `i` is the first index at which `scripts` holds a script for the
/// container.
pub open spec fn first_script_at(scripts: Seq<ScriptView>, container: Seq<char>, i: int) -> bool {
    0 <= i < scripts.len() && scripts[i].container_name == container && forall|j: int|
        0 <= j < i ==> (#[trigger] scripts[j]).container_name != container
}

/// Whether `scripts` holds a script for the container.
pub open spec fn has_script_for(scripts: Seq<ScriptView>, container: Seq<char>) -> bool {
    exists|i: int| 0 <= i < scripts.len() && (#[trigger] scripts[i]).container_name == container
}

/// The first index at which `scripts` holds a script for the container.
pub fn script_index(scripts: &Vec<DeploymentScript>, container: &str) -> (r: Option<usize>)
    ensures
        match r {
            Some(i) => first_script_at(views(scripts@), container@, i as int),
            None => !has_script_for(views(scripts@), container@),
        },
{
    let mut i: usize = 0;
    while i < scripts.len()
        invariant
            i <= scripts.len(),
            forall|j: int|
                0 <= j < i ==> (#[trigger] views(scripts@)[j]).container_name != container@,
        decreases scripts.len() - i,
    {
        if str_eq(scripts[i].container_name.as_str(), container) {
            return Some(i);
        }
        i += 1;
    }
    None
}

impl Project {
    /// A project of the given name and path with no scripts.
    pub fn new(name: String, path: String) -> (r: Project)
        ensures
            r@ == (ProjectView { name: name@, path: path@, scripts: Seq::empty() }),
    {
        let r = Project { name, path, scripts: Vec::new() };
        assert(r@.scripts == Seq::<ScriptView>::empty());
        r
    }

    /// The first script of the project that deploys the container.
    pub fn find_script_for_container(&self, container_name: &str) -> (r: Option<
        &DeploymentScript,
    >)
        ensures
            match r {
                Some(s) => exists|i: int|
                    first_script_at(self@.scripts, container_name@, i) && *s == self.scripts@[i],
                None => !has_script_for(self@.scripts, container_name@),
            },
    {
        match script_index(&self.scripts, container_name) {
            Some(i) => Some(&self.scripts[i]),
            None => None,
        }
    }

    /// How many scripts the project has.
    pub fn script_count(&self) -> (r: usize)
        ensures
            r == self@.scripts.len(),
    {
        self.scripts.len()
    }
}

} // verus!
