//! What the launchers decide: which key to use, which addresses identify a
//! machine, when a session has to end, and with which exit code.
use crate::text::{append_str, string_of, text_of, Text};
use vstd::prelude::*;

verus! {

/// Where the key may be, in the order of the search: disk first, then the
/// temporary file system, which does not survive a restart.
pub open spec fn key_path(i: int) -> Seq<char> {
    if i == 0 {
        "/var/lib/loom/anthropic_api_key"@
    } else {
        "/run/secrets/anthropic_api_key"@
    }
}

pub fn key_paths() -> (r: Vec<&'static str>)
    ensures
        r@.len() == 2,
        forall|i: int| 0 <= i < 2 ==> (#[trigger] r@[i])@ == key_path(i),
{
    let mut r: Vec<&'static str> = Vec::new();
    r.push("/var/lib/loom/anthropic_api_key");
    r.push("/run/secrets/anthropic_api_key");
    r
}

/// Whether a character is white space.
pub open spec fn is_space(c: char) -> bool {
    let n = c as u32;
    ||| 9 <= n <= 13
    ||| n == 32
    ||| n == 0x85
    ||| n == 0xa0
    ||| n == 0x1680
    ||| 0x2000 <= n <= 0x200a
    ||| n == 0x2028
    ||| n == 0x2029
    ||| n == 0x202f
    ||| n == 0x205f
    ||| n == 0x3000
}

pub fn space(c: char) -> (r: bool)
    ensures
        r == is_space(c),
{
    let n: u32 = c as u32;
    (9 <= n && n <= 13) || n == 32 || n == 0x85 || n == 0xa0 || n == 0x1680 || (0x2000 <= n && n
        <= 0x200a) || n == 0x2028 || n == 0x2029 || n == 0x202f || n == 0x205f || n == 0x3000
}

/// Whether a text holds nothing but white space.
pub open spec fn is_blank(t: Seq<char>) -> bool {
    forall|i: int| 0 <= i < t.len() ==> is_space(#[trigger] t[i])
}

fn blank(t: &Text) -> (r: bool)
    ensures
        r == is_blank(t@),
{
    let mut i: usize = 0;
    while i < t.len()
        invariant
            i <= t.len(),
            forall|j: int| 0 <= j < i ==> is_space(#[trigger] t@[j]),
        decreases t.len() - i,
    {
        if !space(t[i]) {
            assert(!is_space(t@[i as int]));
            return false;
        }
        i += 1;
    }
    true
}

/// A text without the newlines at its end.
pub open spec fn without_newlines(t: Seq<char>) -> Seq<char>
    decreases t.len(),
{
    if t.len() > 0 && t.last() == '\n' {
        without_newlines(t.drop_last())
    } else {
        t
    }
}

/// The first key file, from `i` on, that is there and not blank.
pub open spec fn usable_from(files: Seq<Option<String>>, i: int) -> int
    decreases files.len() - i,
{
    if i >= files.len() || (files[i] is Some && !is_blank(files[i]->0@)) {
        i
    } else {
        usable_from(files, i + 1)
    }
}

/// The first key file that is not blank, without its trailing newlines.
///
/// `files` holds what could be read at [`key_paths`], in that order. With no
/// usable file there is an error rather than an empty key, which would only
/// fail later and less specifically.
pub fn anthropic_api_key(files: &Vec<Option<String>>) -> (r: Result<String, String>)
    ensures
        ({
            let at = usable_from(files@, 0);
            match r {
                Ok(key) => at < files@.len() && key@ == without_newlines(files@[at]->0@),
                Err(m) => at >= files@.len() && m@ == "no anthropic api key at "@ + key_path(0)
                    + " or "@ + key_path(1),
            }
        }),
{
    let mut i: usize = 0;
    while i < files.len()
        invariant
            i <= files.len(),
            usable_from(files@, 0) == usable_from(files@, i as int),
        decreases files.len() - i,
    {
        if let Some(raw) = &files[i] {
            let mut t = text_of(raw);
            if !blank(&t) {
                let ghost all = t@;
                while t.len() > 0 && t[t.len() - 1] == '\n'
                    invariant
                        without_newlines(t@) == without_newlines(all),
                    decreases t.len(),
                {
                    let _ = t.pop();
                }
                return Ok(string_of(&t));
            }
        }
        i += 1;
    }
    let mut t = text_of("no anthropic api key at ");
    append_str(&mut t, "/var/lib/loom/anthropic_api_key");
    append_str(&mut t, " or ");
    append_str(&mut t, "/run/secrets/anthropic_api_key");
    Err(string_of(&t))
}

/// A variable that the wrapper is required to set; its absence is a packaging
/// mistake.
pub fn required_env(name: &str, value: Option<String>) -> (r: Result<String, String>)
    ensures
        match value {
            Some(v) => r == Ok::<String, String>(v),
            None => r is Err && r->Err_0@ == name@ + " is not set; the nix wrapper sets it"@,
        },
{
    match value {
        Some(v) => Ok(v),
        None => {
            let mut t = text_of(name);
            append_str(&mut t, " is not set; the nix wrapper sets it");
            Err(string_of(&t))
        },
    }
}

/// The context of a failure to run a program.
pub fn exec_context(program: &str) -> (r: String)
    ensures
        r@ == "exec "@ + program@,
{
    let mut t = text_of("exec ");
    append_str(&mut t, program);
    string_of(&t)
}

/// The argument that hands a prompt file over.
pub fn prompt_argument(prompt: &str) -> (r: String)
    ensures
        r@ == "--append-system-prompt-file="@ + prompt@,
{
    let mut t = text_of("--append-system-prompt-file=");
    append_str(&mut t, prompt);
    string_of(&t)
}

// -- identity ----------------------------------------------------------------

/// An address, as the number its bytes spell.
#[derive(Debug, Clone, Copy, PartialEq, Eq, Structural)]
pub enum Addr {
    V4(u32),
    V6(u128),
}

/// Whether an address is neither loopback nor link-local.
pub open spec fn is_global(a: Addr) -> bool {
    match a {
        Addr::V4(n) => n / 0x100_0000 != 127 && n / 0x1_0000 != 0xa9fe,
        Addr::V6(n) => n != 1 && n / 0x40_0000_0000_0000_0000_0000_0000_0000 != 0x3fa,
    }
}

pub fn global_scope(addr: &Addr) -> (r: bool)
    ensures
        r == is_global(*addr),
{
    match addr {
        Addr::V4(n) => *n / 0x100_0000 != 127 && *n / 0x1_0000 != 0xa9fe,
        Addr::V6(n) => *n != 1 && *n / 0x40_0000_0000_0000_0000_0000_0000_0000 != 0x3fa,
    }
}

/// The addresses that identify a machine: the configured ones that are
/// global.
pub fn global_addrs(configured: &Vec<Addr>) -> (r: Vec<Addr>)
    ensures
        r@ == configured@.filter(|a: Addr| is_global(a)),
{
    let mut out: Vec<Addr> = Vec::new();
    let mut i: usize = 0;
    let ghost keep = |a: Addr| is_global(a);
    assert(configured@.take(0).filter(keep) =~= seq![]) by {
        reveal(Seq::filter);
    }
    while i < configured.len()
        invariant
            i <= configured.len(),
            keep == (|a: Addr| is_global(a)),
            out@ == configured@.take(i as int).filter(keep),
        decreases configured.len() - i,
    {
        let a = configured[i];
        proof {
            assert(configured@.take(i + 1).drop_last() =~= configured@.take(i as int));
            reveal(Seq::filter);
        }
        if global_scope(&a) {
            out.push(a);
        }
        i += 1;
    }
    assert(configured@.take(i as int) =~= configured@);
    out
}

fn contains(v: &Vec<Addr>, a: Addr) -> (r: bool)
    ensures
        r == v@.contains(a),
{
    let mut i: usize = 0;
    while i < v.len()
        invariant
            i <= v.len(),
            forall|j: int| 0 <= j < i ==> #[trigger] v@[j] != a,
        decreases v.len() - i,
    {
        if v[i] == a {
            return true;
        }
        i += 1;
    }
    false
}

fn covers(a: &Vec<Addr>, b: &Vec<Addr>) -> (r: bool)
    ensures
        r == forall|x: Addr| #[trigger] a@.contains(x) ==> b@.contains(x),
{
    let mut i: usize = 0;
    while i < a.len()
        invariant
            i <= a.len(),
            forall|j: int| 0 <= j < i ==> b@.contains(#[trigger] a@[j]),
        decreases a.len() - i,
    {
        if !contains(b, a[i]) {
            assert(a@.contains(a@[i as int]));
            return false;
        }
        i += 1;
    }
    true
}

/// Whether two machines have the same addresses.
pub open spec fn same_identity(a: Seq<Addr>, b: Seq<Addr>) -> bool {
    a.to_set() == b.to_set()
}

pub fn same_addrs(a: &Vec<Addr>, b: &Vec<Addr>) -> (r: bool)
    ensures
        r == same_identity(a@, b@),
{
    let r = covers(a, b) && covers(b, a);
    proof {
        if r {
            assert(a@.to_set() =~= b@.to_set());
        } else {
            assert(forall|x: Addr| a@.to_set().contains(x) <==> #[trigger] a@.contains(x));
            assert(forall|x: Addr| b@.to_set().contains(x) <==> #[trigger] b@.contains(x));
        }
    }
    r
}

// -- the session -------------------------------------------------------------

/// How a process ended.
#[derive(Debug, Clone, Copy, PartialEq, Eq, Structural)]
pub struct Ended {
    pub success: bool,
    /// Its exit code, where it has one.
    pub code: Option<i32>,
}

/// The exit code handed on.
pub open spec fn exit_of(e: Ended) -> u8 {
    if e.success {
        0
    } else {
        match e.code {
            Some(c) => if 0 <= c <= 255 {
                c as u8
            } else {
                1
            },
            None => 1,
        }
    }
}

pub fn exit_code(ended: Ended) -> (r: u8)
    ensures
        r == exit_of(ended),
{
    if ended.success {
        return 0;
    }
    match ended.code {
        Some(c) => if 0 <= c && c <= 255 {
            c as u8
        } else {
            1
        },
        None => 1,
    }
}

/// What a watcher is waiting for.
#[derive(Debug, Clone, Copy, PartialEq, Eq, Structural)]
pub enum Watch {
    /// Whether the session has ended.
    Session,
    /// The addresses, a second later.
    Addresses,
    /// The end of a session that was told to end.
    Termination,
}

/// What a watcher learns.
pub enum Seen {
    Running,
    Ended(Ended),
    /// The current addresses; nothing where they cannot be read.
    Addresses(Option<Vec<Addr>>),
}

/// What a watcher is to do next.
#[derive(Debug, Clone, Copy, PartialEq, Eq, Structural)]
pub enum Order {
    /// Ask whether the session has ended.
    Poll,
    /// Wait a second, then read the addresses.
    Probe,
    /// Tell the session to end and wait for it.
    Terminate,
    /// Exit with this code.
    Exit(u8),
}

/// Whether a watcher can learn this while it waits for that.
pub open spec fn answers(w: Watch, s: Seen) -> bool {
    match w {
        Watch::Session => s is Running || s is Ended,
        Watch::Addresses => s is Addresses,
        Watch::Termination => s is Ended,
    }
}

/// The next state and order of a watcher. A session runs only as long as the
/// machine's addresses can be read and match the baseline.
pub open spec fn watched(baseline: Seq<Addr>, w: Watch, s: Seen) -> (Watch, Order) {
    match s {
        Seen::Ended(e) => (w, Order::Exit(exit_of(e))),
        Seen::Running => (Watch::Addresses, Order::Probe),
        Seen::Addresses(now) => if now is Some && same_identity(now->0@, baseline) {
            (Watch::Session, Order::Poll)
        } else {
            (Watch::Termination, Order::Terminate)
        },
    }
}

pub fn watch(baseline: &Vec<Addr>, w: Watch, seen: &Seen) -> (r: (Watch, Order))
    requires
        answers(w, *seen),
    ensures
        r == watched(baseline@, w, *seen),
{
    match seen {
        Seen::Ended(e) => (w, Order::Exit(exit_code(*e))),
        Seen::Running => (Watch::Addresses, Order::Probe),
        Seen::Addresses(now) => {
            let same = match now {
                Some(addrs) => same_addrs(addrs, baseline),
                None => false,
            };
            if same {
                (Watch::Session, Order::Poll)
            } else {
                (Watch::Termination, Order::Terminate)
            }
        },
    }
}

/// A session is told to end exactly when the addresses cannot be read or
/// differ from the baseline.
pub proof fn law_terminated_iff_identity_differs(baseline: Seq<Addr>, w: Watch, s: Seen)
    requires
        answers(w, s),
    ensures
        watched(baseline, w, s).1 == Order::Terminate <==> (s matches Seen::Addresses(now) && (now
            is None || !same_identity(now->0@, baseline))),
{
}

} // verus!
