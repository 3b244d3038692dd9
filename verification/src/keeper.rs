//! The admin-only window onto the keeper's sign-in browser: where the
//! keeper is, how asset paths and the VNC socket map onto it, and which
//! frames the socket relay passes on.
use vstd::prelude::*;
use crate::text::{push_str, chars_of, string_of, trim_start, trim_start_char, find_sub, find_str, lemma_find_sub,
    slice, starts};

verus! {

/// The keeper's base URL: the configured one, or its address on the
/// container network.
pub fn keeper_base(var: Option<String>) -> (r: String)
    ensures
        match var {
            Some(v) => r@ == v@,
            None => r@ == "http://keeper:6080"@,
        },
{
    match var {
        Some(v) => v,
        None => {
            let mut r = String::new();
            push_str(&mut r, "http://keeper:6080");
            r
        }
    }
}

/// The keeper URL an admin's asset request is fetched from.
pub fn asset_url(base: &str, path: &str) -> (r: String)
    ensures
        r@ == base@ + "/"@ + trim_start(path@, '/'),
{
    let mut r = String::new();
    push_str(&mut r, base);
    push_str(&mut r, "/");
    let p = chars_of(path);
    let t = trim_start_char(&p, '/');
    push_str(&mut r, string_of(&t).as_str());
    r
}

/// `s` with every non-overlapping `from`, scanned left to right, replaced
/// by `to`, as `str::replace` does for a non-empty pattern.
pub open spec fn replace_all(s: Seq<char>, from: Seq<char>, to: Seq<char>) -> Seq<char>
    decreases s.len(),
{
    if from.len() == 0 || s.len() == 0 {
        s
    } else if from.len() <= s.len() && s.take(from.len() as int) == from {
        to + replace_all(s.skip(from.len() as int), from, to)
    } else {
        seq![s[0]] + replace_all(s.drop_first(), from, to)
    }
}

fn replace_str(s: &[char], from: &str, to: &str) -> (r: Vec<char>)
    requires
        from@.len() > 0,
    ensures
        r@ == replace_all(s@, from@, to@),
{
    let f = chars_of(from);
    let t = chars_of(to);
    let mut out: Vec<char> = Vec::new();
    let mut i: usize = 0;
    proof { assert(s@.skip(0) =~= s@); }
    while i < s.len()
        invariant
            i <= s.len(),
            f@ == from@,
            t@ == to@,
            from@.len() > 0,
            out@ + replace_all(s@.skip(i as int), from@, to@) == replace_all(s@, from@, to@),
        decreases s.len() - i,
    {
        let ghost rest = s@.skip(i as int);
        let matches = f.len() <= s.len() - i && {
            let w = slice(s, i, i + f.len());
            crate::text::equals(&w, from)
        };
        if matches {
            proof {
                assert(s@.subrange(i as int, i + f.len()) =~= rest.take(from@.len() as int));
                assert(rest.skip(from@.len() as int) =~= s@.skip(i + f.len()));
            }
            let ghost before = out@;
            let mut k: usize = 0;
            while k < t.len()
                invariant
                    k <= t.len(),
                    out@ == before + t@.take(k as int),
                decreases t.len() - k,
            {
                out.push(t[k]);
                proof { assert(t@.take(k as int + 1) =~= t@.take(k as int).push(t@[k as int])); }
                k = k + 1;
            }
            proof {
                assert(t@.take(t@.len() as int) =~= t@);
                assert(before + to@ + replace_all(s@.skip(i + f.len()), from@, to@)
                    =~= before + (to@ + replace_all(s@.skip(i + f.len()), from@, to@)));
            }
            i = i + f.len();
        } else {
            proof {
                if from@.len() <= rest.len() {
                    assert(s@.subrange(i as int, i + f.len()) =~= rest.take(from@.len() as int));
                }
                assert(rest.drop_first() =~= s@.skip(i as int + 1));
                assert(out@.push(s@[i as int]) + replace_all(s@.skip(i as int + 1), from@, to@)
                    =~= out@ + (seq![rest[0]] + replace_all(rest.drop_first(), from@, to@)));
            }
            out.push(s[i]);
            i = i + 1;
        }
    }
    proof { assert(out@ + s@.skip(s@.len() as int) =~= out@); }
    out
}

/// The keeper's VNC socket: its base with `http` schemes turned into the
/// WebSocket ones, then `/websockify`.
pub open spec fn spec_socket_url(base: Seq<char>) -> Seq<char> {
    replace_all(replace_all(base, "http://"@, "ws://"@), "https://"@, "wss://"@) + "/websockify"@
}

pub fn socket_url(base: &str) -> (r: String)
    ensures
        r@ == spec_socket_url(base@),
{
    let b = chars_of(base);
    proof { reveal_strlit("http://"); reveal_strlit("https://"); }
    let s1 = replace_str(&b, "http://", "ws://");
    let s2 = replace_str(&s1, "https://", "wss://");
    let mut r = string_of(&s2);
    push_str(&mut r, "/websockify");
    r
}

/// The `Host` the socket request names: what follows the first `//` up to
/// the next one, or the keeper's default address when there is no `//`.
pub open spec fn spec_socket_host(url: Seq<char>) -> Seq<char> {
    match find_sub(url, "//"@) {
        None => "keeper:6080"@,
        Some(i) => {
            let rest = url.skip(i + 2);
            match find_sub(rest, "//"@) {
                Some(j) => rest.take(j),
                None => rest,
            }
        },
    }
}

pub fn socket_host(url: &str) -> (r: String)
    ensures
        r@ == spec_socket_host(url@),
{
    let u = chars_of(url);
    proof { reveal_strlit("//"); assert("//"@.len() == 2); lemma_find_sub(u@, "//"@); }
    match find_str(&u, "//") {
        None => {
            let mut r = String::new();
            push_str(&mut r, "keeper:6080");
            r
        }
        Some(i) => {
            assert(i + 2 <= u.len());
            let rest = slice(&u, i + 2, u.len());
            proof { assert(rest@ =~= u@.skip(i + 2)); lemma_find_sub(rest@, "//"@); }
            match find_str(&rest, "//") {
                Some(j) => {
                    let h = slice(&rest, 0, j);
                    proof { assert(h@ =~= rest@.take(j as int)); }
                    string_of(&h)
                }
                None => string_of(&rest),
            }
        }
    }
}

/// A WebSocket frame as the relay sees it.
#[derive(Clone, Copy, Debug, PartialEq, Eq, Structural)]
pub enum Frame {
    Binary,
    Text,
    Close,
    /// Pings, pongs and anything else.
    Other,
}

/// What the relay does with a frame.
#[derive(Clone, Copy, Debug, PartialEq, Eq, Structural)]
pub enum Relay {
    /// Pass it to the other side unchanged.
    Forward,
    /// The conversation is over.
    Stop,
    /// Drop it and read the next.
    Skip,
}

/// Data frames cross, a close ends the relay, and control frames are left
/// to each side's own connection.
pub fn relay_action(f: Frame) -> (r: Relay)
    ensures
        r == (match f {
            Frame::Binary | Frame::Text => Relay::Forward,
            Frame::Close => Relay::Stop,
            Frame::Other => Relay::Skip,
        }),
{
    match f {
        Frame::Binary | Frame::Text => Relay::Forward,
        Frame::Close => Relay::Stop,
        Frame::Other => Relay::Skip,
    }
}

} // verus!
