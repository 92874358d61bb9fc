//! Reading the guest OS identity out of the two identity replies.

use vstd::prelude::*;
use crate::wire::{Member, Reply, Scalar};

verus! {

/// The value of the first member named `key`, if any.
pub open spec fn member_value(ms: Seq<Member>, key: Seq<char>) -> Option<Scalar>
    decreases ms.len(),
{
    if ms.len() == 0 {
        None
    } else if ms[0].key@ == key {
        Some(ms[0].value)
    } else {
        member_value(ms.drop_first(), key)
    }
}

/// The member named `key` when it holds a string.
pub open spec fn str_member(ms: Seq<Member>, key: Seq<char>) -> Option<Seq<char>> {
    match member_value(ms, key) {
        Some(Scalar::Str(s)) => Some(s@),
        _ => None,
    }
}

/// `"<name> <version>"`, or just the name when the version is absent or empty.
pub open spec fn with_version(name: Seq<char>, version: Option<Seq<char>>) -> Seq<char> {
    match version {
        Some(v) => if v.len() == 0 { name } else { name + " "@ + v },
        None => name,
    }
}

/// Name and version fields, or `None` when there is no name.
pub open spec fn name_identity(ms: Seq<Member>) -> Option<Seq<char>> {
    match str_member(ms, "name"@) {
        Some(n) => Some(with_version(n, str_member(ms, "version"@))),
        None => None,
    }
}

/// Identity read from a `guest-get-osinfo` reply: `pretty-name`, then
/// `pretty`, then name and version, then the payload's JSON text.
/// `None` only when the reply has no `return` payload.
pub open spec fn osinfo_identity(r: Reply) -> Option<Seq<char>> {
    match r.ret {
        None => None,
        Some(ret) => {
            let ms = ret.members@;
            if str_member(ms, "pretty-name"@) is Some {
                str_member(ms, "pretty-name"@)
            } else if str_member(ms, "pretty"@) is Some {
                str_member(ms, "pretty"@)
            } else if name_identity(ms) is Some {
                name_identity(ms)
            } else {
                Some(ret.text@)
            }
        },
    }
}

/// Identity read from a `guest-get-os` reply: `pretty`, then name and
/// version; `None` when neither is there.
pub open spec fn os_identity(r: Reply) -> Option<Seq<char>> {
    match r.ret {
        None => None,
        Some(ret) => {
            let ms = ret.members@;
            if str_member(ms, "pretty"@) is Some {
                str_member(ms, "pretty"@)
            } else {
                name_identity(ms)
            }
        },
    }
}

/// Position of the first member named `key`, if any.
pub fn find_member(ms: &Vec<Member>, key: &str) -> (r: Option<usize>)
    ensures
        match r {
            Some(i) => i < ms@.len() && member_value(ms@, key@) == Some(ms@[i as int].value),
            None => member_value(ms@, key@) is None,
        },
{
    let k = key.to_string();
    let mut i: usize = 0;
    assert(ms@.subrange(0, ms@.len() as int) =~= ms@);
    while i < ms.len()
        invariant
            i <= ms@.len(),
            k@ == key@,
            member_value(ms@, key@) == member_value(ms@.subrange(i as int, ms@.len() as int), key@),
        decreases ms.len() - i,
    {
        let ghost rest = ms@.subrange(i as int, ms@.len() as int);
        assert(rest.drop_first() =~= ms@.subrange(i + 1, ms@.len() as int));
        if ms[i].key == k {
            return Some(i);
        }
        i = i + 1;
    }
    assert(ms@.subrange(i as int, ms@.len() as int).len() == 0);
    None
}

/// The string held by the first member named `key`, if it is a string.
pub fn find_str_member(ms: &Vec<Member>, key: &str) -> (r: Option<String>)
    ensures
        match r {
            Some(s) => str_member(ms@, key@) == Some(s@),
            None => str_member(ms@, key@) is None,
        },
{
    match find_member(ms, key) {
        Some(i) => match &ms[i].value {
            Scalar::Str(s) => Some(s.clone()),
            _ => None,
        },
        None => None,
    }
}

/// Whether the first member named `key` is the boolean `true`.
pub open spec fn true_member(ms: Seq<Member>, key: Seq<char>) -> bool {
    member_value(ms, key) == Some(Scalar::Bool(true))
}

/// Whether the first member named `key` is the boolean `true`.
pub fn find_true_member(ms: &Vec<Member>, key: &str) -> (r: bool)
    ensures
        r == true_member(ms@, key@),
{
    match find_member(ms, key) {
        Some(i) => match &ms[i].value {
            Scalar::Bool(b) => *b,
            _ => false,
        },
        None => false,
    }
}

fn name_with_version(ms: &Vec<Member>) -> (r: Option<String>)
    ensures
        match r {
            Some(s) => name_identity(ms@) == Some(s@),
            None => name_identity(ms@) is None,
        },
{
    match find_str_member(ms, "name") {
        None => None,
        Some(name) => {
            match find_str_member(ms, "version") {
                Some(v) => {
                    if v.unicode_len() == 0 {
                        Some(name)
                    } else {
                        let mut s = name;
                        s.append(" ");
                        s.append(v.as_str());
                        Some(s)
                    }
                },
                None => Some(name),
            }
        },
    }
}

/// Identity from a `guest-get-osinfo` reply (see `osinfo_identity`).
pub fn identity_from_osinfo(reply: &Reply) -> (r: Option<String>)
    ensures
        match r {
            Some(s) => osinfo_identity(*reply) == Some(s@),
            None => osinfo_identity(*reply) is None,
        },
{
    match &reply.ret {
        None => None,
        Some(ret) => {
            if let Some(s) = find_str_member(&ret.members, "pretty-name") {
                return Some(s);
            }
            if let Some(s) = find_str_member(&ret.members, "pretty") {
                return Some(s);
            }
            if let Some(s) = name_with_version(&ret.members) {
                return Some(s);
            }
            Some(ret.text.clone())
        },
    }
}

/// Identity from a `guest-get-os` reply (see `os_identity`).
pub fn identity_from_os(reply: &Reply) -> (r: Option<String>)
    ensures
        match r {
            Some(s) => os_identity(*reply) == Some(s@),
            None => os_identity(*reply) is None,
        },
{
    match &reply.ret {
        None => None,
        Some(ret) => {
            if let Some(s) = find_str_member(&ret.members, "pretty") {
                return Some(s);
            }
            name_with_version(&ret.members)
        },
    }
}

} // verus!
