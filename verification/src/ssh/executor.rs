//! The `ssh` command that connects to a host.

use crate::models::host::{Host, HostView};
use crate::number::{decimal, push_decimal};
use crate::search::{join, join_with};
use crate::text::{append_str, chars_of, copy_str, string_of, views};
use vstd::prelude::*;

verus! {

/// One part for each key: `-i`, a space and the path.
pub open spec fn key_parts(keys: Seq<Seq<char>>) -> Seq<Seq<char>> {
    Seq::new(keys.len(), |i: int| "-i "@ + keys[i])
}

/// The parts of the command that is shown for a host: `ssh`, then what is set
/// of user, port, keys and jump host, each with its flag, then the address.
pub open spec fn command_parts(h: HostView) -> Seq<Seq<char>> {
    seq!["ssh"@] + (match h.user {
        Some(user) => seq!["-l "@ + user],
        None => Seq::empty(),
    }) + (match h.port {
        Some(port) => seq!["-p "@ + decimal(port as nat)],
        None => Seq::empty(),
    }) + (match h.identity_file {
        Some(keys) => key_parts(keys),
        None => Seq::empty(),
    }) + (match h.proxy_jump {
        Some(jump) => seq!["-J "@ + jump],
        None => Seq::empty(),
    }) + seq![h.hostname]
}

/// The command that is shown for a host.
pub open spec fn ssh_command(h: HostView) -> Seq<char> {
    join(command_parts(h), " "@)
}

/// The `ssh` command for a host, as it is shown.
pub fn build_ssh_command(host: &Host) -> (r: String)
    ensures
        r@ == ssh_command(host@),
{
    let mut parts: Vec<Vec<char>> = Vec::new();
    parts.push(chars_of("ssh"));
    let ghost a = views(parts@);
    assert(a == seq!["ssh"@]);
    match &host.user {
        Some(user) => {
            let mut p = chars_of("-l ");
            append_str(&mut p, user.as_str());
            parts.push(p);
            assert(views(parts@) == a + seq!["-l "@ + user@]);
        },
        None => {
            assert(views(parts@) == a + Seq::<Seq<char>>::empty());
        },
    }
    let ghost b = views(parts@);
    match host.port {
        Some(port) => {
            let mut p = chars_of("-p ");
            push_decimal(&mut p, port as u64);
            parts.push(p);
            assert(views(parts@) == b + seq!["-p "@ + decimal(port as nat)]);
        },
        None => {
            assert(views(parts@) == b + Seq::<Seq<char>>::empty());
        },
    }
    let ghost c = views(parts@);
    match &host.identity_file {
        Some(keys) => {
            let mut i: usize = 0;
            assert(views(parts@) == c + key_parts(views(keys@)).take(0));
            while i < keys.len()
                invariant
                    i <= keys.len(),
                    views(parts@) == c + key_parts(views(keys@)).take(i as int),
                decreases keys.len() - i,
            {
                let ghost before = views(parts@);
                let mut p = chars_of("-i ");
                append_str(&mut p, keys[i].as_str());
                parts.push(p);
                i += 1;
                assert(views(parts@) == before.push(key_parts(views(keys@))[i - 1]));
                assert(views(parts@) == c + key_parts(views(keys@)).take(i as int));
            }
            assert(key_parts(views(keys@)).take(keys.len() as int) == key_parts(views(keys@)));
        },
        None => {
            assert(views(parts@) == c + Seq::<Seq<char>>::empty());
        },
    }
    let ghost d = views(parts@);
    match &host.proxy_jump {
        Some(jump) => {
            let mut p = chars_of("-J ");
            append_str(&mut p, jump.as_str());
            parts.push(p);
            assert(views(parts@) == d + seq!["-J "@ + jump@]);
        },
        None => {
            assert(views(parts@) == d + Seq::<Seq<char>>::empty());
        },
    }
    let ghost e = views(parts@);
    parts.push(chars_of(host.hostname.as_str()));
    assert(views(parts@) == e + seq![host@.hostname]);
    string_of(&join_with(&parts, " "))
}

/// Two arguments for each key: `-i`, then the path.
pub open spec fn key_arguments(keys: Seq<Seq<char>>, n: int) -> Seq<Seq<char>>
    decreases n,
{
    if n <= 0 {
        Seq::empty()
    } else {
        key_arguments(keys, n - 1) + seq!["-i"@, keys[n - 1]]
    }
}

/// The arguments with which `ssh` is run to connect to a host: what is set of
/// user, port, keys and jump host, each after its flag, then the host's SSH
/// flags, the address and, where one is set, the shell.
pub open spec fn ssh_arguments(h: HostView) -> Seq<Seq<char>> {
    (match h.user {
        Some(user) => seq!["-l"@, user],
        None => Seq::empty(),
    }) + (match h.port {
        Some(port) => seq!["-p"@, decimal(port as nat)],
        None => Seq::empty(),
    }) + (match h.identity_file {
        Some(keys) => key_arguments(keys, keys.len() as int),
        None => Seq::empty(),
    }) + (match h.proxy_jump {
        Some(jump) => seq!["-J"@, jump],
        None => Seq::empty(),
    }) + h.ssh_flags + seq![h.hostname] + (match h.shell {
        Some(shell) => seq![shell],
        None => Seq::empty(),
    })
}

/// The arguments with which `ssh` is run to connect to the host.
pub fn connect_arguments(host: &Host) -> (r: Vec<String>)
    ensures
        views(r@) == ssh_arguments(host@),
{
    let mut args: Vec<String> = Vec::new();
    let ghost z = views(args@);
    assert(z == Seq::<Seq<char>>::empty());
    match &host.user {
        Some(user) => {
            args.push(copy_str("-l"));
            args.push(user.clone());
            assert(views(args@) == z + seq!["-l"@, user@]);
        },
        None => {
            assert(views(args@) == z + Seq::<Seq<char>>::empty());
        },
    }
    let ghost b = views(args@);
    match host.port {
        Some(port) => {
            let mut p: Vec<char> = Vec::new();
            push_decimal(&mut p, port as u64);
            assert(p@ == decimal(port as nat));
            args.push(copy_str("-p"));
            args.push(string_of(&p));
            assert(views(args@) == b + seq!["-p"@, decimal(port as nat)]);
        },
        None => {
            assert(views(args@) == b + Seq::<Seq<char>>::empty());
        },
    }
    let ghost c = views(args@);
    match &host.identity_file {
        Some(keys) => {
            let mut i: usize = 0;
            assert(views(args@) == c + key_arguments(views(keys@), 0));
            while i < keys.len()
                invariant
                    i <= keys.len(),
                    views(args@) == c + key_arguments(views(keys@), i as int),
                decreases keys.len() - i,
            {
                let ghost before = views(args@);
                assert(views(keys@)[i as int] == keys@[i as int]@);
                args.push(copy_str("-i"));
                args.push(keys[i].clone());
                i += 1;
                assert(views(args@) == before + seq!["-i"@, keys@[i - 1]@]);
                assert(views(args@) == c + (key_arguments(views(keys@), i - 1) + seq![
                    "-i"@,
                    keys@[i - 1]@,
                ]));
            }
            assert(views(keys@).len() == keys.len());
        },
        None => {
            assert(views(args@) == c + Seq::<Seq<char>>::empty());
        },
    }
    let ghost d = views(args@);
    match &host.proxy_jump {
        Some(jump) => {
            args.push(copy_str("-J"));
            args.push(jump.clone());
            assert(views(args@) == d + seq!["-J"@, jump@]);
        },
        None => {
            assert(views(args@) == d + Seq::<Seq<char>>::empty());
        },
    }
    let ghost e = views(args@);
    let mut i: usize = 0;
    assert(views(args@) == e + host@.ssh_flags.take(0));
    while i < host.ssh_flags.len()
        invariant
            i <= host.ssh_flags.len(),
            views(args@) == e + host@.ssh_flags.take(i as int),
        decreases host.ssh_flags.len() - i,
    {
        let ghost before = views(args@);
        args.push(host.ssh_flags[i].clone());
        i += 1;
        assert(views(args@) == before.push(host.ssh_flags@[i - 1]@));
        assert(views(args@) == e + host@.ssh_flags.take(i as int));
    }
    assert(host@.ssh_flags.take(host.ssh_flags.len() as int) == host@.ssh_flags);
    let ghost f = views(args@);
    args.push(host.hostname.clone());
    assert(views(args@) == f + seq![host@.hostname]);
    let ghost g = views(args@);
    match &host.shell {
        Some(shell) => {
            args.push(shell.clone());
            assert(views(args@) == g + seq![shell@]);
        },
        None => {
            assert(views(args@) == g + Seq::<Seq<char>>::empty());
        },
    }
    args
}

} // verus!
