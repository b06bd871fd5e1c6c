//! The player lists a server keeps: whitelist, bans and operators.

use crate::text::{chars_of, trim, trim_window};
use vstd::prelude::*;

verus! {

/// A whitelisted player.
pub struct PlayerEntry {
    pub uuid: String,
    pub name: String,
}

/// A banned player.
pub struct BanEntry {
    pub uuid: String,
    pub name: String,
    pub reason: String,
    pub source: String,
    pub created: String,
    pub expires: String,
}

/// An operator.
pub struct OpEntry {
    pub uuid: String,
    pub name: String,
    pub level: u32,
    pub bypasses_player_limit: bool,
}

/// Whether list file contents `content` hold no entries without decoding:
/// nothing but white space, or `[]` surrounded by white space.
pub fn json_list_is_empty(content: &str) -> (r: bool)
    ensures
        r == (trim(content@).len() == 0 || trim(content@) == "[]"@),
{
    let v = chars_of(content);
    let n = v.len();
    assert(v@.subrange(0, n as int) =~= content@);
    let (a, b) = trim_window(&v, 0, n);
    proof {
        reveal_strlit("[]");
    }
    if a == b {
        return true;
    }
    let r = b - a == 2 && v[a] == '[' && v[a + 1] == ']';
    assert(r ==> v@.subrange(a as int, b as int) =~= "[]"@);
    proof {
        let t = v@.subrange(a as int, b as int);
        if t == "[]"@ {
            assert(t.len() == 2);
            assert(t[0] == '[' && t[1] == ']');
            assert(t[0] == v@[a as int] && t[1] == v@[a + 1]);
        }
    }
    r
}

/// Whether `name` equals `other` ignoring ASCII case.
pub open spec fn eq_ignore_ascii_case(name: Seq<char>, other: Seq<char>) -> bool {
    name.len() == other.len() && forall|i: int|
        0 <= i < name.len() ==> crate::version::ascii_lower(#[trigger] name[i]) == crate::version::ascii_lower(other[i])
}

/// The whitelist without the players named `name`, ignoring ASCII case.
pub fn remove_player(list: Vec<PlayerEntry>, name: &str) -> (r: Vec<PlayerEntry>)
    ensures
        r@.map_values(|p: PlayerEntry| (p.uuid@, p.name@)) == list@.filter(
            |p: PlayerEntry| !eq_ignore_ascii_case(p.name@, name@),
        ).map_values(|p: PlayerEntry| (p.uuid@, p.name@)),
{
    let ghost f = |p: PlayerEntry| !eq_ignore_ascii_case(p.name@, name@);
    let ghost orig = list@;
    let target = chars_of(name);
    let mut kept: Vec<PlayerEntry> = Vec::new();
    let mut rest = list;
    let mut rev: Vec<PlayerEntry> = Vec::new();
    while rest.len() > 0
        invariant
            orig == rest@ + rev@.reverse(),
        decreases rest.len(),
    {
        let e = rest.pop().unwrap();
        let ghost prev = rev@;
        rev.push(e);
        assert(rev@.reverse() =~= seq![e] + prev.reverse());
        assert(orig =~= rest@ + rev@.reverse());
    }
    assert(orig =~= rev@.reverse());
    assert(orig.take(0).filter(f) =~= Seq::<PlayerEntry>::empty()) by {
        reveal(Seq::filter);
    }
    while rev.len() > 0
        invariant
            target@ == name@,
            f == (|p: PlayerEntry| !eq_ignore_ascii_case(p.name@, name@)),
            rev@.len() <= orig.len(),
            orig.skip(orig.len() - rev@.len()) == rev@.reverse(),
            kept@ == orig.take(orig.len() - rev@.len()).filter(f),
        decreases rev.len(),
    {
        let ghost k = orig.len() - rev@.len();
        let e = rev.pop().unwrap();
        assert(orig.skip(k)[0] == e) by {
            assert(rev@.push(e).reverse()[0] == e);
        }
        assert(orig.skip(k + 1) =~= rev@.reverse()) by {
            assert(orig.skip(k).drop_first() =~= orig.skip(k + 1));
            assert(rev@.push(e).reverse().drop_first() =~= rev@.reverse());
        }
        assert(orig.take(k + 1).drop_last() =~= orig.take(k));
        assert(orig.take(k + 1).last() == e);
        assert(orig.take(k + 1).filter(f) == if f(e) {
            orig.take(k).filter(f).push(e)
        } else {
            orig.take(k).filter(f)
        }) by {
            reveal(Seq::filter);
        }
        if !same_name_ignoring_case(&e.name, &target) {
            kept.push(e);
        }
    }
    assert(orig.take(orig.len() as int) =~= orig);
    kept
}

/// Whether `name` equals `target` ignoring ASCII case.
fn same_name_ignoring_case(name: &String, target: &Vec<char>) -> (r: bool)
    ensures
        r == eq_ignore_ascii_case(name@, target@),
{
    let n = chars_of(name.as_str());
    if n.len() != target.len() {
        return false;
    }
    let mut i: usize = 0;
    while i < n.len()
        invariant
            n@ == name@,
            n@.len() == target@.len(),
            i <= n@.len(),
            forall|j: int| 0 <= j < i ==> crate::version::ascii_lower(#[trigger] n@[j]) == crate::version::ascii_lower(
                target@[j],
            ),
        decreases n.len() - i,
    {
        let a = n[i];
        let b = target[i];
        let la = if 'A' <= a && a <= 'Z' {
            ((a as u8) + 32) as char
        } else {
            a
        };
        let lb = if 'A' <= b && b <= 'Z' {
            ((b as u8) + 32) as char
        } else {
            b
        };
        if la != lb {
            return false;
        }
        i = i + 1;
    }
    true
}

/// The console command `<verb> <name>`, followed by ` <reason>` when a
/// reason is given.
pub open spec fn command_text(verb: Seq<char>, name: Seq<char>, reason: Seq<char>) -> Seq<char> {
    if reason.len() == 0 {
        verb + " "@ + name
    } else {
        verb + " "@ + name + " "@ + reason
    }
}

/// The console command `<verb> <name>`, then ` <reason>` if `reason` is not empty.
fn command(verb: &str, name: &str, reason: &str) -> (r: String)
    ensures
        r@ == command_text(verb@, name@, reason@),
{
    let base = verb.to_string().concat(" ").concat(name);
    if reason.unicode_len() == 0 {
        base
    } else {
        base.concat(" ").concat(reason)
    }
}

/// The command that whitelists `name`.
pub fn whitelist_add_command(name: &str) -> (r: String)
    ensures
        r@ == command_text("whitelist add"@, name@, Seq::empty()),
{
    proof {
        reveal_strlit("");
    }
    command("whitelist add", name, "")
}

/// The command that removes `name` from the whitelist.
pub fn whitelist_remove_command(name: &str) -> (r: String)
    ensures
        r@ == command_text("whitelist remove"@, name@, Seq::empty()),
{
    proof {
        reveal_strlit("");
    }
    command("whitelist remove", name, "")
}

/// The command that bans `name`, with `reason` if it is not empty.
pub fn ban_command(name: &str, reason: &str) -> (r: String)
    ensures
        r@ == command_text("ban"@, name@, reason@),
{
    command("ban", name, reason)
}

/// The command that lifts the ban of `name`.
pub fn pardon_command(name: &str) -> (r: String)
    ensures
        r@ == command_text("pardon"@, name@, Seq::empty()),
{
    proof {
        reveal_strlit("");
    }
    command("pardon", name, "")
}

/// The command that makes `name` an operator.
pub fn op_command(name: &str) -> (r: String)
    ensures
        r@ == command_text("op"@, name@, Seq::empty()),
{
    proof {
        reveal_strlit("");
    }
    command("op", name, "")
}

/// The command that revokes `name`'s operator status.
pub fn deop_command(name: &str) -> (r: String)
    ensures
        r@ == command_text("deop"@, name@, Seq::empty()),
{
    proof {
        reveal_strlit("");
    }
    command("deop", name, "")
}

/// The command that kicks `name`, with `reason` if it is not empty.
pub fn kick_command(name: &str, reason: &str) -> (r: String)
    ensures
        r@ == command_text("kick"@, name@, reason@),
{
    command("kick", name, reason)
}

} // verus!
