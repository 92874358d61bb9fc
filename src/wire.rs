//! Agent commands and the decoded shape of agent replies.

use vstd::prelude::*;

verus! {

/// Value of a named command argument.
pub enum ArgValue {
    Str(String),
    Int(i64),
}

/// One named argument of a command.
pub struct Argument {
    pub name: String,
    pub value: ArgValue,
}

/// A guest-agent command: its name and its named arguments, in order.
/// The transport serialises it as `{"execute": .., "arguments": {..}}`,
/// leaving out `arguments` when there are none.
pub struct Command {
    pub execute: String,
    pub arguments: Vec<Argument>,
}

/// A JSON value as far as the protocol looks into it.
/// `Compound` stands for arrays, objects and numbers that do not fit an `i64`.
pub enum Scalar {
    Null,
    Bool(bool),
    Int(i64),
    Str(String),
    Compound,
}

/// One member of the `return` object of a reply.
pub struct Member {
    pub key: String,
    pub value: Scalar,
}

/// The `return` payload of a reply.
pub struct Returned {
    /// The payload itself (a handle is an `Int`, an object is `Compound`).
    pub value: Scalar,
    /// The payload's members, when it is an object.
    pub members: Vec<Member>,
    /// Compact JSON text of the payload.
    pub text: String,
}

/// A decoded agent reply; `ret` is `None` when the reply has no `return` key.
pub struct Reply {
    pub ret: Option<Returned>,
}

/// Failure of the transport: the command could not be run, exited with an
/// error, or printed something that is not JSON.
pub struct TransportError {
    pub message: String,
}

/// Model of an argument value.
pub enum ArgModel {
    Str(Seq<char>),
    Int(int),
}

pub open spec fn arg_model(v: ArgValue) -> ArgModel {
    match v {
        ArgValue::Str(s) => ArgModel::Str(s@),
        ArgValue::Int(i) => ArgModel::Int(i as int),
    }
}

/// Model of a command: its name and its arguments as (name, value) pairs.
pub struct CommandModel {
    pub execute: Seq<char>,
    pub arguments: Seq<(Seq<char>, ArgModel)>,
}

impl View for Command {
    type V = CommandModel;

    open spec fn view(&self) -> CommandModel {
        CommandModel {
            execute: self.execute@,
            arguments: self.arguments@.map_values(|a: Argument| (a.name@, arg_model(a.value))),
        }
    }
}

pub open spec fn osinfo_cmd() -> CommandModel {
    CommandModel { execute: "guest-get-osinfo"@, arguments: seq![] }
}

pub open spec fn os_cmd() -> CommandModel {
    CommandModel { execute: "guest-get-os"@, arguments: seq![] }
}

pub open spec fn open_cmd(path: Seq<char>, mode: Seq<char>) -> CommandModel {
    CommandModel {
        execute: "guest-file-open"@,
        arguments: seq![("path"@, ArgModel::Str(path)), ("mode"@, ArgModel::Str(mode))],
    }
}

pub open spec fn read_cmd(handle: int, count: int) -> CommandModel {
    CommandModel {
        execute: "guest-file-read"@,
        arguments: seq![("handle"@, ArgModel::Int(handle)), ("count"@, ArgModel::Int(count))],
    }
}

pub open spec fn write_cmd(handle: int, buf: Seq<char>) -> CommandModel {
    CommandModel {
        execute: "guest-file-write"@,
        arguments: seq![("handle"@, ArgModel::Int(handle)), ("buf-b64"@, ArgModel::Str(buf))],
    }
}

pub open spec fn close_cmd(handle: int) -> CommandModel {
    CommandModel { execute: "guest-file-close"@, arguments: seq![("handle"@, ArgModel::Int(handle))] }
}

fn str_arg(name: &str, value: &str) -> (r: Argument)
    ensures
        r.name@ == name@,
        arg_model(r.value) == ArgModel::Str(value@),
{
    Argument { name: name.to_string(), value: ArgValue::Str(value.to_string()) }
}

fn int_arg(name: &str, value: i64) -> (r: Argument)
    ensures
        r.name@ == name@,
        arg_model(r.value) == ArgModel::Int(value as int),
{
    Argument { name: name.to_string(), value: ArgValue::Int(value) }
}

/// The command that asks for a detailed description of the guest OS.
pub fn osinfo_command() -> (r: Command)
    ensures
        r@ == osinfo_cmd(),
{
    let r = Command { execute: "guest-get-osinfo".to_string(), arguments: Vec::new() };
    assert(r@.arguments =~= seq![]);
    r
}

/// The older command that asks for a description of the guest OS.
pub fn os_command() -> (r: Command)
    ensures
        r@ == os_cmd(),
{
    let r = Command { execute: "guest-get-os".to_string(), arguments: Vec::new() };
    assert(r@.arguments =~= seq![]);
    r
}

/// Opens `path` in the guest; `mode` is `"r"` or `"w"`.
pub fn open_command(path: &str, mode: &str) -> (r: Command)
    ensures
        r@ == open_cmd(path@, mode@),
{
    let mut args: Vec<Argument> = Vec::new();
    args.push(str_arg("path", path));
    args.push(str_arg("mode", mode));
    let r = Command { execute: "guest-file-open".to_string(), arguments: args };
    assert(r@.arguments =~= open_cmd(path@, mode@).arguments);
    r
}

/// Reads up to `count` bytes from an open handle.
pub fn read_command(handle: i64, count: i64) -> (r: Command)
    ensures
        r@ == read_cmd(handle as int, count as int),
{
    let mut args: Vec<Argument> = Vec::new();
    args.push(int_arg("handle", handle));
    args.push(int_arg("count", count));
    let r = Command { execute: "guest-file-read".to_string(), arguments: args };
    assert(r@.arguments =~= read_cmd(handle as int, count as int).arguments);
    r
}

/// Writes base64 text `buf` (its decoded bytes) to an open handle.
pub fn write_command(handle: i64, buf: String) -> (r: Command)
    ensures
        r@ == write_cmd(handle as int, buf@),
{
    let mut args: Vec<Argument> = Vec::new();
    args.push(int_arg("handle", handle));
    args.push(Argument { name: "buf-b64".to_string(), value: ArgValue::Str(buf) });
    let r = Command { execute: "guest-file-write".to_string(), arguments: args };
    assert(r@.arguments =~= write_cmd(handle as int, buf@).arguments);
    r
}

/// Closes an open handle.
pub fn close_command(handle: i64) -> (r: Command)
    ensures
        r@ == close_cmd(handle as int),
{
    let mut args: Vec<Argument> = Vec::new();
    args.push(int_arg("handle", handle));
    let r = Command { execute: "guest-file-close".to_string(), arguments: args };
    assert(r@.arguments =~= close_cmd(handle as int).arguments);
    r
}

} // verus!
