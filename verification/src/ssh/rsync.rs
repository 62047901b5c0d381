//! The `rsync` command that copies to or from a host.

use crate::models::host::{Host, HostView};
use crate::number::{decimal, push_decimal};
use crate::text::{append_str, chars_of, concat3, copy_str, string_of, trim, trim_ws, views, Class};
use vstd::prelude::*;

verus! {

/// The options of `ssh` for the keys of a host: `-i`, the path and a space
/// for each.
pub open spec fn key_options(keys: Seq<Seq<char>>, n: int) -> Seq<char>
    decreases n,
{
    if n <= 0 {
        Seq::empty()
    } else {
        key_options(keys, n - 1) + "-i "@ + keys[n - 1] + " "@
    }
}

/// The options of the `ssh` that `rsync` runs: what is set of user, port and
/// keys, and the option that accepts the key of a host that is new.
pub open spec fn ssh_options(h: HostView) -> Seq<char> {
    (match h.user {
        Some(user) => "-l "@ + user + " "@,
        None => Seq::empty(),
    }) + (match h.port {
        Some(port) => "-p "@ + decimal(port as nat) + " "@,
        None => Seq::empty(),
    }) + (match h.identity_file {
        Some(keys) => key_options(keys, keys.len() as int),
        None => Seq::empty(),
    }) + "-o StrictHostKeyChecking=no "@
}

/// The arguments with which `rsync` is run: the remote shell where it has
/// options, the archive flag, the flag for compression where asked, then
/// source and destination, of which the one on the host has the host's
/// address and a colon before it.
pub open spec fn rsync_arguments(
    h: HostView,
    source: Seq<char>,
    dest: Seq<char>,
    to_host: bool,
    compress: bool,
) -> Seq<Seq<char>> {
    (if trim(ssh_options(h), Class::Space).len() > 0 {
        seq!["-e"@, "ssh "@ + trim(ssh_options(h), Class::Space)]
    } else {
        Seq::empty()
    }) + seq!["-a"@] + (if compress {
        seq!["-z"@]
    } else {
        Seq::empty()
    }) + (if to_host {
        seq![source, h.hostname + ":"@ + dest]
    } else {
        seq![h.hostname + ":"@ + source, dest]
    })
}

/// The options of the `ssh` that `rsync` runs.
pub fn build_ssh_options(host: &Host) -> (r: Vec<char>)
    ensures
        r@ == ssh_options(host@),
{
    let mut out: Vec<char> = Vec::new();
    let ghost z = out@;
    match &host.user {
        Some(user) => {
            append_str(&mut out, "-l ");
            append_str(&mut out, user.as_str());
            append_str(&mut out, " ");
            assert(out@ == z + ("-l "@ + user@ + " "@));
        },
        None => {
            assert(out@ == z + Seq::<char>::empty());
        },
    }
    let ghost b = out@;
    match host.port {
        Some(port) => {
            append_str(&mut out, "-p ");
            push_decimal(&mut out, port as u64);
            append_str(&mut out, " ");
            assert(out@ == b + ("-p "@ + decimal(port as nat) + " "@));
        },
        None => {
            assert(out@ == b + Seq::<char>::empty());
        },
    }
    let ghost c = out@;
    match &host.identity_file {
        Some(keys) => {
            let mut i: usize = 0;
            assert(out@ == c + key_options(views(keys@), 0));
            while i < keys.len()
                invariant
                    i <= keys.len(),
                    out@ == c + key_options(views(keys@), i as int),
                decreases keys.len() - i,
            {
                assert(views(keys@)[i as int] == keys@[i as int]@);
                append_str(&mut out, "-i ");
                append_str(&mut out, keys[i].as_str());
                append_str(&mut out, " ");
                i += 1;
                assert(out@ == c + (key_options(views(keys@), i - 1) + "-i "@ + keys@[i - 1]@
                    + " "@));
            }
            assert(views(keys@).len() == keys.len());
        },
        None => {
            assert(out@ == c + Seq::<char>::empty());
        },
    }
    append_str(&mut out, "-o StrictHostKeyChecking=no ");
    out
}

/// The arguments with which `rsync` is run to copy `source` to `dest`, to the
/// host or from it.
pub fn build_rsync_arguments(
    host: &Host,
    source: &str,
    dest: &str,
    to_host: bool,
    compress: bool,
) -> (r: Vec<String>)
    ensures
        views(r@) == rsync_arguments(host@, source@, dest@, to_host, compress),
{
    let options = trim_ws(&build_ssh_options(host));
    let mut args: Vec<String> = Vec::new();
    let ghost z = views(args@);
    assert(z == Seq::<Seq<char>>::empty());
    if options.len() > 0 {
        let mut shell = chars_of("ssh ");
        crate::text::append(&mut shell, &options);
        args.push(copy_str("-e"));
        args.push(string_of(&shell));
        assert(views(args@) == z + seq!["-e"@, "ssh "@ + options@]);
    } else {
        assert(views(args@) == z + Seq::<Seq<char>>::empty());
    }
    let ghost a = views(args@);
    args.push(copy_str("-a"));
    assert(views(args@) == a + seq!["-a"@]);
    let ghost b = views(args@);
    if compress {
        args.push(copy_str("-z"));
        assert(views(args@) == b + seq!["-z"@]);
    } else {
        assert(views(args@) == b + Seq::<Seq<char>>::empty());
    }
    let ghost c = views(args@);
    if to_host {
        args.push(copy_str(source));
        args.push(concat3(host.hostname.as_str(), ":", dest));
        assert(views(args@) == c + seq![source@, host@.hostname + ":"@ + dest@]);
    } else {
        args.push(concat3(host.hostname.as_str(), ":", source));
        args.push(copy_str(dest));
        assert(views(args@) == c + seq![host@.hostname + ":"@ + source@, dest@]);
    }
    args
}

} // verus!
