//! The hosts of an SSH configuration file: reading them from its text and
//! writing them as text.

use crate::models::host::{blank_host, Host, HostView};
use crate::number::{decimal, parse_u16, push_decimal, read_u16};
use crate::search::{begins_with, lines, lines_of, starts_with};
use crate::text::{
    append, append_str, chars_of, copy_str, lead, lead_len, lowercase, opt_view, slice_of, str_eq,
    string_of, to_lowercase, trim, trim_ws, views, CharSet, Class,
};
use vstd::prelude::*;

verus! {

/// Why a change to the configuration was refused.
#[derive(Debug, Clone, Copy, PartialEq, Eq, Structural)]
pub enum ConfigError {
    /// There is no host at the index.
    IndexOutOfBounds,
}

impl ConfigError {
    /// The error in words.
    pub fn message(&self) -> (r: String)
        ensures
            r@ == "Host index out of bounds"@,
    {
        copy_str("Host index out of bounds")
    }
}

/// The hosts of an SSH configuration file.
#[derive(Debug, Clone)]
pub struct SshConfig {
    /// The path of the file.
    pub path: String,
    pub hosts: Vec<Host>,
}

/// The configuration, as contracts see it.
pub struct ConfigView {
    pub path: Seq<char>,
    pub hosts: Seq<HostView>,
}

impl View for SshConfig {
    type V = ConfigView;

    open spec fn view(&self) -> ConfigView {
        ConfigView { path: self.path@, hosts: views(self.hosts@) }
    }
}

/// Whether `i` is the first index at which `hosts` holds the alias.
pub open spec fn first_alias_at(hosts: Seq<HostView>, alias: Seq<char>, i: int) -> bool {
    0 <= i < hosts.len() && hosts[i].host == alias && forall|j: int|
        0 <= j < i ==> (#[trigger] hosts[j]).host != alias
}

/// Whether `hosts` holds the alias.
pub open spec fn has_alias(hosts: Seq<HostView>, alias: Seq<char>) -> bool {
    exists|i: int| 0 <= i < hosts.len() && (#[trigger] hosts[i]).host == alias
}

/// The first index at which `hosts` holds the alias.
pub fn alias_index(hosts: &Vec<Host>, alias: &str) -> (r: Option<usize>)
    ensures
        match r {
            Some(i) => first_alias_at(views(hosts@), alias@, i as int),
            None => !has_alias(views(hosts@), alias@),
        },
{
    let mut i: usize = 0;
    while i < hosts.len()
        invariant
            i <= hosts.len(),
            forall|j: int| 0 <= j < i ==> (#[trigger] views(hosts@)[j]).host != alias@,
        decreases hosts.len() - i,
    {
        if str_eq(hosts[i].host.as_str(), alias) {
            return Some(i);
        }
        i += 1;
    }
    None
}

impl SshConfig {
    /// A configuration at the path with no hosts.
    pub fn new(path: String) -> (r: SshConfig)
        ensures
            r@ == (ConfigView { path: path@, hosts: Seq::empty() }),
    {
        let r = SshConfig { path, hosts: Vec::new() };
        assert(r@.hosts == Seq::<HostView>::empty());
        r
    }

    /// Adds a host at the end.
    pub fn add_host(&mut self, host: Host)
        ensures
            final(self)@ == (ConfigView { hosts: old(self)@.hosts.push(host@), ..old(self)@ }),
    {
        let ghost before = self@.hosts;
        self.hosts.push(host);
        assert(self@.hosts == before.push(host@));
    }

    /// Puts `host` in place of the host at `index`.
    pub fn update_host(&mut self, index: usize, host: Host) -> (r: Result<(), ConfigError>)
        ensures
            index < old(self)@.hosts.len() ==> r is Ok && final(self)@ == (ConfigView {
                hosts: old(self)@.hosts.update(index as int, host@),
                ..old(self)@
            }),
            index >= old(self)@.hosts.len() ==> r == Err::<(), ConfigError>(
                ConfigError::IndexOutOfBounds,
            ) && final(self)@ == old(self)@,
    {
        if index < self.hosts.len() {
            let ghost before = self@.hosts;
            self.hosts.set(index, host);
            assert(self@.hosts == before.update(index as int, host@));
            Ok(())
        } else {
            Err(ConfigError::IndexOutOfBounds)
        }
    }

    /// Takes the host at `index` out and returns it.
    pub fn remove_host(&mut self, index: usize) -> (r: Result<Host, ConfigError>)
        ensures
            index < old(self)@.hosts.len() ==> r is Ok && r->Ok_0@ == old(self)@.hosts[index as int]
                && final(self)@ == (ConfigView {
                hosts: old(self)@.hosts.remove(index as int),
                ..old(self)@
            }),
            index >= old(self)@.hosts.len() ==> r is Err && r->Err_0 == ConfigError::IndexOutOfBounds
                && final(self)@ == old(self)@,
    {
        if index < self.hosts.len() {
            let ghost before = self@.hosts;
            let h = self.hosts.remove(index);
            assert(self@.hosts == before.remove(index as int));
            Ok(h)
        } else {
            Err(ConfigError::IndexOutOfBounds)
        }
    }

    /// The first host of the alias.
    pub fn find_host(&self, alias: &str) -> (r: Option<&Host>)
        ensures
            match r {
                Some(h) => exists|i: int|
                    first_alias_at(self@.hosts, alias@, i) && *h == self.hosts@[i],
                None => !has_alias(self@.hosts, alias@),
            },
    {
        match alias_index(&self.hosts, alias) {
            Some(i) => Some(&self.hosts[i]),
            None => None,
        }
    }

    /// Whether a host of the alias is there.
    pub fn host_exists(&self, alias: &str) -> (r: bool)
        ensures
            r == has_alias(self@.hosts, alias@),
    {
        match alias_index(&self.hosts, alias) {
            Some(i) => {
                assert(self@.hosts[i as int].host == alias@);
                true
            },
            None => false,
        }
    }
}

/// A path with the home directory in place of the tilde of a path that begins
/// with `~/`, where the home directory is known.
pub open spec fn tilde_expanded(path: Seq<char>, home: Option<Seq<char>>) -> Seq<char> {
    match home {
        Some(h) => if starts_with(path, "~/"@) {
            h + path.skip(1)
        } else {
            path
        },
        None => path,
    }
}

/// The path with the home directory in place of a leading tilde.
pub fn expand_tilde_in(path: &Vec<char>, home: &Option<String>) -> (r: Vec<char>)
    ensures
        r@ == tilde_expanded(path@, opt_view(*home)),
{
    match home {
        Some(h) => {
            if begins_with(path, "~/") {
                proof {
                    reveal_strlit("~/");
                }
                let mut out = chars_of(h.as_str());
                append(&mut out, &slice_of(path, 1, path.len()));
                out
            } else {
                crate::text::copy_chars(path)
            }
        },
        None => crate::text::copy_chars(path),
    }
}

/// What is read so far of a configuration: the hosts that are complete, and
/// the host whose lines are being read.
pub struct Reading {
    pub hosts: Seq<HostView>,
    pub current: Option<HostView>,
}

/// The keyword of a line, as it is written, and what follows it: the line is
/// parted at its first white space. `None` for a line without white space.
pub open spec fn keyword_and_value(line: Seq<char>) -> Option<(Seq<char>, Seq<char>)> {
    let k = lead(line, Class::NotSpace) as int;
    if k < line.len() {
        Some((line.take(k), trim(line.skip(k + 1), Class::Space)))
    } else {
        None
    }
}

/// The keys of a host with one more.
pub open spec fn with_key(keys: Option<Seq<Seq<char>>>, key: Seq<char>) -> Option<
    Seq<Seq<char>>,
> {
    match keys {
        Some(k) => Some(k.push(key)),
        None => Some(seq![key]),
    }
}

/// What a directive, given by its keyword in lower case, does to the host
/// that is being read.
pub open spec fn host_with(
    h: HostView,
    keyword: Seq<char>,
    value: Seq<char>,
    home: Option<Seq<char>>,
) -> HostView {
    if keyword == "hostname"@ {
        HostView { hostname: value, ..h }
    } else if keyword == "user"@ {
        HostView { user: Some(value), ..h }
    } else if keyword == "port"@ {
        match parse_u16(value) {
            Some(p) => HostView { port: Some(p), ..h },
            None => h,
        }
    } else if keyword == "identityfile"@ {
        HostView { identity_file: with_key(h.identity_file, tilde_expanded(value, home)), ..h }
    } else if keyword == "proxyjump"@ {
        HostView { proxy_jump: Some(value), ..h }
    } else {
        h
    }
}

/// The hosts with the host that was being read, if there was one.
pub open spec fn closed(r: Reading) -> Seq<HostView> {
    match r.current {
        Some(h) => r.hosts.push(h),
        None => r.hosts,
    }
}

/// What a line adds to what was read, given its keyword in lower case. A
/// `Host` line ends the host before it and begins a new one, unless its
/// pattern holds `*` or `?`; any other directive goes to the host that is
/// being read.
pub open spec fn directive_step(
    r: Reading,
    keyword: Seq<char>,
    value: Seq<char>,
    home: Option<Seq<char>>,
) -> Reading {
    if keyword == "host"@ {
        Reading {
            hosts: closed(r),
            current: if value.contains('*') || value.contains('?') {
                None
            } else {
                Some(blank_host(value, Seq::empty()))
            },
        }
    } else {
        match r.current {
            Some(h) => Reading { current: Some(host_with(h, keyword, value, home)), ..r },
            None => r,
        }
    }
}

/// What a line adds to what was read. Blank lines, comments and lines of one
/// word add nothing.
pub open spec fn line_step(r: Reading, raw: Seq<char>, home: Option<Seq<char>>) -> Reading {
    let line = trim(raw, Class::Space);
    if line.len() == 0 || starts_with(line, "#"@) {
        r
    } else {
        match keyword_and_value(line) {
            Some((keyword, value)) => directive_step(r, lowercase(keyword), value, home),
            None => r,
        }
    }
}

/// What the first `n` lines give.
pub open spec fn read_lines(ls: Seq<Seq<char>>, home: Option<Seq<char>>, n: int) -> Reading
    decreases n,
{
    if n <= 0 {
        Reading { hosts: Seq::empty(), current: None }
    } else {
        line_step(read_lines(ls, home, n - 1), ls[n - 1], home)
    }
}

/// The hosts that have an address, in order.
pub open spec fn with_address(hosts: Seq<HostView>) -> Seq<HostView>
    decreases hosts.len(),
{
    if hosts.len() == 0 {
        Seq::empty()
    } else if hosts.last().hostname.len() > 0 {
        with_address(hosts.drop_last()).push(hosts.last())
    } else {
        with_address(hosts.drop_last())
    }
}

/// The hosts that the text of a configuration describes: those with an alias
/// without wildcard and with an address.
pub open spec fn config_hosts(content: Seq<char>, home: Option<Seq<char>>) -> Seq<HostView> {
    with_address(closed(read_lines(lines(content), home, lines(content).len() as int)))
}

/// Whether the text holds the character.
fn has(text: &Vec<char>, c: char) -> (r: bool)
    ensures
        r == text@.contains(c),
{
    crate::text::has_char(text, c)
}

/// The state of the reader in code.
struct Reader {
    hosts: Vec<Host>,
    current: Option<Host>,
}

impl View for Reader {
    type V = Reading;

    closed spec fn view(&self) -> Reading {
        Reading {
            hosts: views(self.hosts@),
            current: match self.current {
                Some(h) => Some(h@),
                None => None,
            },
        }
    }
}

impl Reader {
    fn close(&mut self)
        ensures
            final(self)@ == (Reading { hosts: closed(old(self)@), current: None }),
    {
        let ghost before = self@.hosts;
        let mut current: Option<Host> = None;
        core::mem::swap(&mut current, &mut self.current);
        match current {
            Some(h) => {
                self.hosts.push(h);
                assert(self@.hosts == before.push(h@));
            },
            None => {},
        }
    }

    fn apply(&mut self, keyword: &str, value: &Vec<char>, home: &Option<String>)
        ensures
            final(self)@ == directive_step(old(self)@, keyword@, value@, opt_view(*home)),
    {
        if str_eq(keyword, "host") {
            self.close();
            if !(has(value, '*') || has(value, '?')) {
                self.current = Some(Host::new(string_of(value), String::new()));
            }
            return ;
        }
        let mut current: Option<Host> = None;
        core::mem::swap(&mut current, &mut self.current);
        match current {
            Some(mut h) => {
                let ghost h0 = h@;
                if str_eq(keyword, "hostname") {
                    h.hostname = string_of(value);
                } else if str_eq(keyword, "user") {
                    h.user = Some(string_of(value));
                } else if str_eq(keyword, "port") {
                    match read_u16(value) {
                        Some(p) => {
                            h.port = Some(p);
                        },
                        None => {},
                    }
                } else if str_eq(keyword, "identityfile") {
                    let key = string_of(&expand_tilde_in(value, home));
                    let mut keys: Option<Vec<String>> = None;
                    core::mem::swap(&mut keys, &mut h.identity_file);
                    let mut list = match keys {
                        Some(k) => k,
                        None => Vec::new(),
                    };
                    let ghost before = views(list@);
                    list.push(key);
                    assert(views(list@) == before.push(key@));
                    proof {
                        if h0.identity_file is None {
                            assert(views(list@) == seq![key@]);
                        }
                    }
                    h.identity_file = Some(list);
                } else if str_eq(keyword, "proxyjump") {
                    h.proxy_jump = Some(string_of(value));
                }
                assert(h@ == host_with(h0, keyword@, value@, opt_view(*home)));
                self.current = Some(h);
            },
            None => {},
        }
    }
}

/// The hosts that the text of a configuration describes, where `home` is the
/// home directory, if it is known.
pub fn parse_config_with_home(content: &str, home: &Option<String>) -> (r: Vec<Host>)
    ensures
        views(r@) == config_hosts(content@, opt_view(*home)),
{
    let ls = lines_of(&chars_of(content));
    assert(views(ls@).len() == ls.len());
    let mut reader = Reader { hosts: Vec::new(), current: None };
    assert(reader@.hosts == Seq::<HostView>::empty());
    let mut i: usize = 0;
    while i < ls.len()
        invariant
            i <= ls.len(),
            reader@ == read_lines(views(ls@), opt_view(*home), i as int),
        decreases ls.len() - i,
    {
        assert(views(ls@)[i as int] == ls@[i as int]@);
        let line = trim_ws(&ls[i]);
        if !(line.len() == 0 || begins_with(&line, "#")) {
            let k = lead_len(&line, &CharSet::NotSpace);
            if k < line.len() {
                let keyword = to_lowercase(string_of(&slice_of(&line, 0, k)).as_str());
                let value = trim_ws(&slice_of(&line, k + 1, line.len()));
                reader.apply(keyword.as_str(), &value, home);
            }
        }
        i += 1;
    }
    reader.close();
    let all = reader.hosts;
    let mut out: Vec<Host> = Vec::new();
    let mut j: usize = 0;
    assert(views(all@).take(0) == Seq::<HostView>::empty());
    while j < all.len()
        invariant
            j <= all.len(),
            views(out@) == with_address(views(all@).take(j as int)),
        decreases all.len() - j,
    {
        let ghost before = views(out@);
        assert(views(all@).take(j + 1).drop_last() == views(all@).take(j as int));
        assert(views(all@).take(j + 1).last() == all@[j as int]@);
        if !all[j].hostname.as_str().is_empty() {
            out.push(all[j].duplicate());
            assert(views(out@) == before.push(all@[j as int]@));
        }
        j += 1;
    }
    assert(views(all@).take(all.len() as int) == views(all@));
    out
}

/// Asks `dirs::home_dir` for the home directory of the user. Nothing is
/// claimed of the value: it depends on the environment.
#[verifier::external_body]
pub(crate) fn home_dir() -> Option<String> {
    dirs::home_dir().map(|p| p.to_string_lossy().to_string())
}

/// The hosts that the text of a configuration describes. Paths of keys that
/// begin with `~/` are given with the home directory of the user.
pub fn parse_config_content(content: &str) -> (r: Result<Vec<Host>, ConfigError>)
    ensures
        r is Ok,
        exists|home: Option<Seq<char>>| views(r->Ok_0@) == config_hosts(content@, home),
{
    let home = home_dir();
    let hosts = parse_config_with_home(content, &home);
    assert(views(hosts@) == config_hosts(content@, opt_view(home)));
    Ok(hosts)
}

/// The lines that set the keys of a host.
pub open spec fn key_lines(keys: Seq<Seq<char>>, n: int) -> Seq<char>
    decreases n,
{
    if n <= 0 {
        Seq::empty()
    } else {
        key_lines(keys, n - 1) + "  IdentityFile "@ + keys[n - 1] + "\n"@
    }
}

/// The block of a configuration file that describes a host: its alias, its
/// address, then what is set of user, port, keys and jump host, and an empty
/// line.
pub open spec fn host_block(h: HostView) -> Seq<char> {
    "Host "@ + h.host + "\n"@ + "  HostName "@ + h.hostname + "\n"@ + (match h.user {
        Some(user) => "  User "@ + user + "\n"@,
        None => Seq::empty(),
    }) + (match h.port {
        Some(port) => "  Port "@ + decimal(port as nat) + "\n"@,
        None => Seq::empty(),
    }) + (match h.identity_file {
        Some(keys) => key_lines(keys, keys.len() as int),
        None => Seq::empty(),
    }) + (match h.proxy_jump {
        Some(jump) => "  ProxyJump "@ + jump + "\n"@,
        None => Seq::empty(),
    }) + "\n"@
}

/// The block that describes the host.
pub fn host_block_chars(host: &Host) -> (r: Vec<char>)
    ensures
        r@ == host_block(host@),
{
    let mut out = chars_of("Host ");
    append_str(&mut out, host.host.as_str());
    append_str(&mut out, "\n");
    append_str(&mut out, "  HostName ");
    append_str(&mut out, host.hostname.as_str());
    append_str(&mut out, "\n");
    let ghost a = out@;
    match &host.user {
        Some(user) => {
            append_str(&mut out, "  User ");
            append_str(&mut out, user.as_str());
            append_str(&mut out, "\n");
            assert(out@ == a + ("  User "@ + user@ + "\n"@));
        },
        None => {
            assert(out@ == a + Seq::<char>::empty());
        },
    }
    let ghost b = out@;
    match host.port {
        Some(port) => {
            append_str(&mut out, "  Port ");
            push_decimal(&mut out, port as u64);
            append_str(&mut out, "\n");
            assert(out@ == b + ("  Port "@ + decimal(port as nat) + "\n"@));
        },
        None => {
            assert(out@ == b + Seq::<char>::empty());
        },
    }
    let ghost c = out@;
    match &host.identity_file {
        Some(keys) => {
            let mut i: usize = 0;
            assert(out@ == c + key_lines(views(keys@), 0));
            while i < keys.len()
                invariant
                    i <= keys.len(),
                    out@ == c + key_lines(views(keys@), i as int),
                decreases keys.len() - i,
            {
                assert(views(keys@)[i as int] == keys@[i as int]@);
                let ghost before = out@;
                append_str(&mut out, "  IdentityFile ");
                append_str(&mut out, keys[i].as_str());
                append_str(&mut out, "\n");
                i += 1;
                assert(out@ == c + (key_lines(views(keys@), i - 1) + "  IdentityFile "@
                    + keys@[i - 1]@ + "\n"@));
            }
            assert(views(keys@).len() == keys.len());
        },
        None => {
            assert(out@ == c + Seq::<char>::empty());
        },
    }
    let ghost d = out@;
    match &host.proxy_jump {
        Some(jump) => {
            append_str(&mut out, "  ProxyJump ");
            append_str(&mut out, jump.as_str());
            append_str(&mut out, "\n");
            assert(out@ == d + ("  ProxyJump "@ + jump@ + "\n"@));
        },
        None => {
            assert(out@ == d + Seq::<char>::empty());
        },
    }
    append_str(&mut out, "\n");
    out
}

/// Appends the block that describes the host to the text.
pub fn write_host_block(content: &mut String, host: &Host)
    ensures
        final(content)@ == old(content)@ + host_block(host@),
{
    let mut out = chars_of(content.as_str());
    append(&mut out, &host_block_chars(host));
    *content = string_of(&out);
}

/// The blocks of the first `n` hosts, one after the other.
pub open spec fn host_blocks(hosts: Seq<HostView>, n: int) -> Seq<char>
    decreases n,
{
    if n <= 0 {
        Seq::empty()
    } else {
        host_blocks(hosts, n - 1) + host_block(hosts[n - 1])
    }
}

/// The text of a configuration file: two lines of comment, an empty line, and
/// the blocks of the hosts.
pub open spec fn config_text(hosts: Seq<HostView>) -> Seq<char> {
    "# SSH Config managed by sshing\n"@ + "# Edit with caution or use sshing to manage hosts\n\n"@
        + host_blocks(hosts, hosts.len() as int)
}

/// The text of the configuration file for the hosts.
pub fn render_config(config: &SshConfig) -> (r: String)
    ensures
        r@ == config_text(config@.hosts),
{
    let mut out = chars_of("# SSH Config managed by sshing\n");
    append_str(&mut out, "# Edit with caution or use sshing to manage hosts\n\n");
    let ghost head = out@;
    let mut i: usize = 0;
    assert(out@ == head + host_blocks(config@.hosts, 0));
    while i < config.hosts.len()
        invariant
            i <= config.hosts.len(),
            out@ == head + host_blocks(config@.hosts, i as int),
        decreases config.hosts.len() - i,
    {
        assert(config@.hosts[i as int] == config.hosts@[i as int]@);
        append(&mut out, &host_block_chars(&config.hosts[i]));
        i += 1;
        assert(out@ == head + (host_blocks(config@.hosts, i - 1) + host_block(
            config@.hosts[i - 1],
        )));
    }
    string_of(&out)
}

} // verus!
