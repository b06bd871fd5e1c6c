//! `key=value` properties files: reading them, rewriting them with new values
//! while keeping comments and layout, and describing a server's properties.

use crate::i18n::{lookup, lookup_entry, pairs_view, Entries};
use crate::text::texts;
use crate::version::{
    cmp_char_seqs, cmp_text, lemma_cmp_text_antisymmetric, lemma_cmp_text_transitive, ordering_of,
};
use crate::text::{
    after_char, before_char, chars_of, find_in_window, split, split_window, trim, trim_window,
    windows_text,
};
use vstd::prelude::*;

verus! {

/// `l` without one trailing carriage return.
pub open spec fn strip_cr(l: Seq<char>) -> Seq<char> {
    if l.len() > 0 && l.last() == '\r' {
        l.drop_last()
    } else {
        l
    }
}

/// The lines of `s` as `str::lines` yields them: split at `\n`, a `\r` before
/// the `\n` removed, and no final empty line.
pub open spec fn lines_of(s: Seq<char>) -> Seq<Seq<char>> {
    let p = split(s, '\n');
    let body = p.drop_last().map_values(|l: Seq<char>| strip_cr(l));
    if p.last().len() == 0 {
        body
    } else {
        body.push(p.last())
    }
}

/// Whether a trimmed line is blank or a comment.
pub open spec fn is_comment(t: Seq<char>) -> bool {
    t.len() == 0 || t[0] == '#'
}

/// The property that line `l` sets: the trimmed text before and after its
/// first `=`, unless it is blank, a comment or has no `=`.
pub open spec fn property_of(l: Seq<char>) -> Option<(Seq<char>, Seq<char>)> {
    let t = trim(l);
    if is_comment(t) {
        None
    } else {
        match after_char(t, '=') {
            None => None,
            Some(rest) => Some((trim(before_char(t, '=')), trim(rest))),
        }
    }
}

/// The position of the entry of `key` in `m`, or -1.
pub open spec fn key_pos(m: Entries, key: Seq<char>) -> int
    decreases m.len(),
{
    if m.len() == 0 {
        -1
    } else if m[0].0 == key {
        0
    } else {
        let r = key_pos(m.drop_first(), key);
        if r < 0 {
            -1
        } else {
            r + 1
        }
    }
}

/// `m` with `key` set to `value`: its entry updated in place, or appended.
pub open spec fn put(m: Entries, key: Seq<char>, value: Seq<char>) -> Entries {
    let i = key_pos(m, key);
    if i < 0 {
        m.push((key, value))
    } else {
        m.update(i, (key, value))
    }
}

/// The properties that `lines` set, in order of first appearance, each with
/// its last value.
pub open spec fn properties_of(lines: Seq<Seq<char>>) -> Entries
    decreases lines.len(),
{
    if lines.len() == 0 {
        Seq::empty()
    } else {
        let m = properties_of(lines.drop_last());
        match property_of(lines.last()) {
            Some(p) => put(m, p.0, p.1),
            None => m,
        }
    }
}

/// What rewriting line `l` with `values` writes, and the key it replaced.
pub open spec fn rewrite_line(l: Seq<char>, values: Entries) -> (Seq<char>, Option<Seq<char>>) {
    let t = trim(l);
    if is_comment(t) || after_char(t, '=') is None {
        (l + "\n"@, None)
    } else {
        let key = trim(before_char(t, '='));
        match lookup(values, key) {
            Some(v) => (key + "="@ + v + "\n"@, Some(key)),
            None => (l + "\n"@, None),
        }
    }
}

/// What rewriting `lines` with `values` writes, and the keys replaced.
pub open spec fn rewrite_lines(lines: Seq<Seq<char>>, values: Entries) -> (Seq<char>, Seq<Seq<char>>)
    decreases lines.len(),
{
    if lines.len() == 0 {
        (Seq::empty(), Seq::empty())
    } else {
        let before = rewrite_lines(lines.drop_last(), values);
        let out = rewrite_line(lines.last(), values);
        (
            before.0 + out.0,
            match out.1 {
                Some(k) => before.1.push(k),
                None => before.1,
            },
        )
    }
}

/// The lines that add the entries of `values` whose key is not in `written`.
pub open spec fn added_lines(values: Entries, written: Seq<Seq<char>>) -> Seq<char>
    decreases values.len(),
{
    if values.len() == 0 {
        Seq::empty()
    } else {
        let e = values.last();
        added_lines(values.drop_last(), written) + if written.contains(e.0) {
            Seq::empty()
        } else {
            e.0 + "="@ + e.1 + "\n"@
        }
    }
}

/// `existing` rewritten with `values`: every line kept, except that a
/// property line whose key has a new value becomes `key=value`; then the
/// entries whose key no line had, in order. Every line ends with `\n`.
pub open spec fn rewrite(existing: Seq<char>, values: Entries) -> Seq<char> {
    let body = rewrite_lines(lines_of(existing), values);
    body.0 + added_lines(values, body.1)
}

/// Relies on `String`'s `FromIterator<char>`: the characters in order.
#[verifier::external_body]
fn text_of(v: &Vec<char>, lo: usize, hi: usize) -> (r: String)
    requires
        lo <= hi <= v@.len(),
    ensures
        r@ == v@.subrange(lo as int, hi as int),
{
    v[lo..hi].iter().collect()
}

/// The windows of the lines of `v`.
fn line_windows(v: &Vec<char>) -> (r: Vec<(usize, usize)>)
    ensures
        windows_text(v@, r@) == lines_of(v@),
        forall|k: int| 0 <= k < r@.len() ==> (#[trigger] r@[k]).0 <= r@[k].1 <= v@.len(),
{
    let n = v.len();
    let pieces = split_window(v, 0, n, '\n');
    assert(v@.subrange(0, n as int) =~= v@);
    let ghost p = split(v@, '\n');
    let ghost body = p.drop_last().map_values(|l: Seq<char>| strip_cr(l));
    let mut r: Vec<(usize, usize)> = Vec::new();
    proof {
        crate::text::lemma_split_nonempty(Seq::empty(), v@, '\n');
    }
    let last = pieces.len() - 1;
    let mut k: usize = 0;
    while k < last
        invariant
            last == pieces@.len() - 1,
            k <= last,
            windows_text(v@, pieces@) == p,
            p == split(v@, '\n'),
            body == p.drop_last().map_values(|l: Seq<char>| strip_cr(l)),
            forall|j: int| 0 <= j < pieces@.len() ==> 0 <= (#[trigger] pieces@[j]).0 <= pieces@[j].1 <= v@.len(),
            forall|j: int| 0 <= j < r@.len() ==> (#[trigger] r@[j]).0 <= r@[j].1 <= v@.len(),
            windows_text(v@, r@) =~= body.take(k as int),
        decreases last - k,
    {
        let (a, b) = pieces[k];
        let e = if b > a && v[b - 1] == '\r' {
            b - 1
        } else {
            b
        };
        assert(p[k as int] == v@.subrange(a as int, b as int));
        assert(v@.subrange(a as int, e as int) == strip_cr(p[k as int])) by {
            if b > a && v@[b - 1] == '\r' {
                assert(v@.subrange(a as int, b as int).drop_last() =~= v@.subrange(a as int, e as int));
            }
        }
        let ghost prev = r@;
        r.push((a, e));
        assert(windows_text(v@, r@) =~= windows_text(v@, prev).push(v@.subrange(a as int, e as int)));
        assert(body[k as int] == strip_cr(p[k as int]));
        k = k + 1;
        assert(windows_text(v@, r@) =~= body.take(k as int));
    }
    assert(body.take(last as int) =~= body);
    let (a, b) = pieces[last];
    assert(windows_text(v@, pieces@)[last as int] == v@.subrange(a as int, b as int));
    assert(p.last() == v@.subrange(a as int, b as int));
    if a < b {
        r.push((a, b));
        assert(windows_text(v@, r@) =~= body.push(p.last()));
    }
    r
}

/// The property that the line in window `[lo, hi)` of `v` sets, as windows
/// of the key and the value.
fn property_window(v: &Vec<char>, lo: usize, hi: usize) -> (r: Option<((usize, usize), (usize, usize))>)
    requires
        lo <= hi <= v@.len(),
    ensures
        match r {
            Some(w) => w.0.0 <= w.0.1 <= v@.len() && w.1.0 <= w.1.1 <= v@.len() && property_of(
                v@.subrange(lo as int, hi as int),
            ) == Some((v@.subrange(w.0.0 as int, w.0.1 as int), v@.subrange(w.1.0 as int, w.1.1 as int))),
            None => property_of(v@.subrange(lo as int, hi as int)) is None,
        },
{
    let (a, b) = trim_window(v, lo, hi);
    let ghost t = v@.subrange(a as int, b as int);
    if a == b || v[a] == '#' {
        return None;
    }
    match find_in_window(v, a, b, '=') {
        None => None,
        Some(k) => {
            assert(t.take(k - a) =~= v@.subrange(a as int, k as int));
            assert(t.skip(k - a + 1) =~= v@.subrange(k + 1, b as int));
            let key = trim_window(v, a, k);
            let value = trim_window(v, k + 1, b);
            Some((key, value))
        },
    }
}

/// The position of `key`'s entry in `m`.
fn find_key(m: &Vec<(String, String)>, key: &String) -> (r: Option<usize>)
    ensures
        match r {
            Some(i) => i < m@.len() && key_pos(pairs_view(m@), key@) == i,
            None => key_pos(pairs_view(m@), key@) == -1,
        },
{
    let ghost e = pairs_view(m@);
    let mut i: usize = 0;
    assert(e.skip(0) =~= e);
    while i < m.len()
        invariant
            i <= m@.len(),
            e == pairs_view(m@),
            key_pos(e, key@) == if key_pos(e.skip(i as int), key@) < 0 {
                -1
            } else {
                key_pos(e.skip(i as int), key@) + i
            },
        decreases m.len() - i,
    {
        assert(e.skip(i as int)[0] == (m@[i as int].0@, m@[i as int].1@));
        if m[i].0 == *key {
            return Some(i);
        }
        assert(e.skip(i as int).drop_first() =~= e.skip(i + 1));
        i = i + 1;
    }
    assert(e.skip(i as int) =~= Seq::<(Seq<char>, Seq<char>)>::empty());
    None
}

/// Reads the properties of the file contents `content`: for each line that is
/// not blank, not a comment and holds a `=`, the trimmed text before the
/// first `=` is set to the trimmed text after it. Properties are listed in
/// order of first appearance, each with its last value.
pub fn read_properties(content: &str) -> (r: Vec<(String, String)>)
    ensures
        pairs_view(r@) == properties_of(lines_of(content@)),
{
    let v = chars_of(content);
    let lines = line_windows(&v);
    let ghost ls = lines_of(content@);
    let mut m: Vec<(String, String)> = Vec::new();
    let mut k: usize = 0;
    assert(ls.take(0) =~= Seq::<Seq<char>>::empty());
    assert(pairs_view(m@) =~= Seq::<(Seq<char>, Seq<char>)>::empty());
    while k < lines.len()
        invariant
            k <= lines@.len(),
            v@ == content@,
            ls == lines_of(content@),
            windows_text(v@, lines@) == ls,
            forall|j: int| 0 <= j < lines@.len() ==> (#[trigger] lines@[j]).0 <= lines@[j].1 <= v@.len(),
            pairs_view(m@) == properties_of(ls.take(k as int)),
        decreases lines.len() - k,
    {
        let (lo, hi) = lines[k];
        assert(ls.take(k + 1).drop_last() =~= ls.take(k as int));
        assert(ls.take(k + 1).last() == v@.subrange(lo as int, hi as int));
        match property_window(&v, lo, hi) {
            None => {},
            Some(((ka, kb), (va, vb))) => {
                let key = text_of(&v, ka, kb);
                let value = text_of(&v, va, vb);
                let ghost before = pairs_view(m@);
                match find_key(&m, &key) {
                    Some(i) => {
                        m.set(i, (key, value));
                        assert(pairs_view(m@) =~= before.update(i as int, (key@, value@)));
                    },
                    None => {
                        m.push((key, value));
                        assert(pairs_view(m@) =~= before.push((key@, value@)));
                    },
                }
            },
        }
        k = k + 1;
    }
    assert(ls.take(lines@.len() as int) =~= ls);
    m
}

/// Whether `key` is one of `list`.
fn contains_text(list: &Vec<String>, key: &String) -> (r: bool)
    ensures
        r == texts(list@).contains(key@),
{
    let mut i: usize = 0;
    while i < list.len()
        invariant
            i <= list@.len(),
            forall|j: int| 0 <= j < i ==> texts(list@)[j] != key@,
        decreases list.len() - i,
    {
        if list[i] == *key {
            assert(texts(list@)[i as int] == key@);
            return true;
        }
        i = i + 1;
    }
    false
}

/// The file contents `existing` rewritten with `values`: every line is kept
/// (each ending with a line break), except that a property line whose key has
/// a value in `values` becomes `key=value`; then `key=value` lines follow for
/// the entries of `values`, in order, whose key no line had.
pub fn write_properties(existing: &str, values: &Vec<(String, String)>) -> (r: String)
    ensures
        r@ == rewrite(existing@, pairs_view(values@)),
{
    let v = chars_of(existing);
    let lines = line_windows(&v);
    let ghost ls = lines_of(existing@);
    let ghost vals = pairs_view(values@);
    let mut out = String::new();
    let mut written: Vec<String> = Vec::new();
    let mut k: usize = 0;
    assert(ls.take(0) =~= Seq::<Seq<char>>::empty());
    assert(texts(written@) =~= Seq::<Seq<char>>::empty());
    while k < lines.len()
        invariant
            k <= lines@.len(),
            v@ == existing@,
            ls == lines_of(existing@),
            vals == pairs_view(values@),
            windows_text(v@, lines@) == ls,
            forall|j: int| 0 <= j < lines@.len() ==> (#[trigger] lines@[j]).0 <= lines@[j].1 <= v@.len(),
            (out@, texts(written@)) == rewrite_lines(ls.take(k as int), vals),
        decreases lines.len() - k,
    {
        let (lo, hi) = lines[k];
        let ghost l = v@.subrange(lo as int, hi as int);
        assert(ls.take(k + 1).drop_last() =~= ls.take(k as int));
        assert(ls.take(k + 1).last() == l);
        let ghost before = (out@, texts(written@));
        let line = text_of(&v, lo, hi);
        let (a, b) = trim_window(&v, lo, hi);
        let ghost t = v@.subrange(a as int, b as int);
        let mut replaced = false;
        if a < b && v[a] != '#' {
            match find_in_window(&v, a, b, '=') {
                None => {},
                Some(eq) => {
                    assert(t.take(eq - a) =~= v@.subrange(a as int, eq as int));
                    let (ka, kb) = trim_window(&v, a, eq);
                    let key = text_of(&v, ka, kb);
                    match lookup_entry(values, key.as_str()) {
                        None => {},
                        Some(nv) => {
                            out.append(key.as_str());
                            out.append("=");
                            out.append(nv.as_str());
                            out.append("\n");
                            let ghost wprev = written@;
                            written.push(key);
                            assert(texts(written@) =~= texts(wprev).push(key@));
                            replaced = true;
                        },
                    }
                },
            }
        }
        if !replaced {
            out.append(line.as_str());
            out.append("\n");
        }
        assert((out@, texts(written@)) =~= rewrite_lines(ls.take(k + 1), vals));
        k = k + 1;
    }
    assert(ls.take(lines@.len() as int) =~= ls);
    let ghost body = out@;
    let ghost w = texts(written@);
    let mut j: usize = 0;
    assert(vals.take(0) =~= Seq::<(Seq<char>, Seq<char>)>::empty());
    assert(out@ =~= body + added_lines(vals.take(0), w));
    while j < values.len()
        invariant
            j <= values@.len(),
            vals == pairs_view(values@),
            w == texts(written@),
            out@ == body + added_lines(vals.take(j as int), w),
        decreases values.len() - j,
    {
        assert(vals.take(j + 1).drop_last() =~= vals.take(j as int));
        assert(vals.take(j + 1).last() == (values@[j as int].0@, values@[j as int].1@));
        if !contains_text(&written, &values[j].0) {
            out.append(values[j].0.as_str());
            out.append("=");
            out.append(values[j].1.as_str());
            out.append("\n");
        }
        j = j + 1;
        assert(out@ =~= body + added_lines(vals.take(j as int), w));
    }
    assert(vals.take(j as int) =~= vals);
    out
}


/// What the settings screen shows of a property: description, value type,
/// default value and category.
pub type Description = (Seq<char>, Seq<char>, Seq<char>, Seq<char>);

/// The known server properties and their descriptions.
pub open spec fn property_table() -> Seq<(Seq<char>, Description)> {
    seq![
        ("server-port"@, ("服务器端口"@, "number"@, "25565"@, "network"@)),
        ("server-ip"@, ("服务器绑定IP，留空表示所有"@, "string"@, ""@, "network"@)),
        ("max-players"@, ("最大玩家数"@, "number"@, "20"@, "player"@)),
        ("online-mode"@, ("正版验证"@, "boolean"@, "true"@, "player"@)),
        ("white-list"@, ("启用白名单"@, "boolean"@, "false"@, "player"@)),
        ("enforce-whitelist"@, ("强制白名单"@, "boolean"@, "false"@, "player"@)),
        ("gamemode"@, ("默认游戏模式"@, "select"@, "survival"@, "game"@)),
        ("difficulty"@, ("游戏难度"@, "select"@, "easy"@, "game"@)),
        ("hardcore"@, ("极限模式"@, "boolean"@, "false"@, "game"@)),
        ("pvp"@, ("允许PVP"@, "boolean"@, "true"@, "game"@)),
        ("allow-flight"@, ("允许飞行"@, "boolean"@, "false"@, "game"@)),
        ("allow-nether"@, ("允许下界"@, "boolean"@, "true"@, "world"@)),
        ("spawn-monsters"@, ("生成怪物"@, "boolean"@, "true"@, "world"@)),
        ("spawn-animals"@, ("生成动物"@, "boolean"@, "true"@, "world"@)),
        ("spawn-npcs"@, ("生成NPC"@, "boolean"@, "true"@, "world"@)),
        ("generate-structures"@, ("生成结构"@, "boolean"@, "true"@, "world"@)),
        ("level-name"@, ("世界名称"@, "string"@, "world"@, "world"@)),
        ("level-seed"@, ("世界种子"@, "string"@, ""@, "world"@)),
        ("level-type"@, ("世界类型"@, "string"@, "minecraft:normal"@, "world"@)),
        ("view-distance"@, ("视距"@, "number"@, "10"@, "performance"@)),
        ("simulation-distance"@, ("模拟距离"@, "number"@, "10"@, "performance"@)),
        ("max-tick-time"@, ("最大tick时间(ms)，-1为禁用"@, "number"@, "60000"@, "performance"@)),
        ("network-compression-threshold"@, ("网络压缩阈值"@, "number"@, "256"@, "performance"@)),
        ("motd"@, ("服务器描述(MOTD)"@, "string"@, "A Minecraft Server"@, "display"@)),
        ("enable-command-block"@, ("启用命令方块"@, "boolean"@, "false"@, "game"@)),
        ("enable-query"@, ("启用Query协议"@, "boolean"@, "false"@, "network"@)),
        ("enable-rcon"@, ("启用RCON远程控制"@, "boolean"@, "false"@, "network"@)),
        ("enable-status"@, ("启用服务器列表状态"@, "boolean"@, "true"@, "network"@)),
        ("force-gamemode"@, ("强制游戏模式"@, "boolean"@, "false"@, "game"@)),
        ("spawn-protection"@, ("出生点保护半径"@, "number"@, "16"@, "world"@)),
        ("sync-chunk-writes"@, ("同步区块写入"@, "boolean"@, "true"@, "performance"@))
    ]
}

/// The description of `key` in `table`, if any.
pub open spec fn describe_in(table: Seq<(Seq<char>, Description)>, key: Seq<char>) -> Option<Description>
    decreases table.len(),
{
    if table.len() == 0 {
        None
    } else if table[0].0 == key {
        Some(table[0].1)
    } else {
        describe_in(table.drop_first(), key)
    }
}

/// A table row: a key and its description, value type, default and category.
pub type PropertyRow = (String, (String, String, String, String));

/// The view of table rows.
pub open spec fn rows_view(v: Seq<PropertyRow>) -> Seq<(Seq<char>, Description)> {
    v.map_values(|r: PropertyRow| (r.0@, (r.1.0@, r.1.1@, r.1.2@, r.1.3@)))
}

fn row(k: &str, d: &str, t: &str, def: &str, c: &str) -> (r: PropertyRow)
    ensures
        r.0@ == k@ && r.1.0@ == d@ && r.1.1@ == t@ && r.1.2@ == def@ && r.1.3@ == c@,
{
    (k.to_string(), (d.to_string(), t.to_string(), def.to_string(), c.to_string()))
}

/// The known server properties with their description, value type, default
/// value and category.
pub fn get_property_descriptions() -> (r: Vec<PropertyRow>)
    ensures
        rows_view(r@) == property_table(),
{
    let mut t: Vec<PropertyRow> = Vec::new();
    t.push(row("server-port", "服务器端口", "number", "25565", "network"));
    t.push(row("server-ip", "服务器绑定IP，留空表示所有", "string", "", "network"));
    t.push(row("max-players", "最大玩家数", "number", "20", "player"));
    t.push(row("online-mode", "正版验证", "boolean", "true", "player"));
    t.push(row("white-list", "启用白名单", "boolean", "false", "player"));
    t.push(row("enforce-whitelist", "强制白名单", "boolean", "false", "player"));
    t.push(row("gamemode", "默认游戏模式", "select", "survival", "game"));
    t.push(row("difficulty", "游戏难度", "select", "easy", "game"));
    t.push(row("hardcore", "极限模式", "boolean", "false", "game"));
    t.push(row("pvp", "允许PVP", "boolean", "true", "game"));
    t.push(row("allow-flight", "允许飞行", "boolean", "false", "game"));
    t.push(row("allow-nether", "允许下界", "boolean", "true", "world"));
    t.push(row("spawn-monsters", "生成怪物", "boolean", "true", "world"));
    t.push(row("spawn-animals", "生成动物", "boolean", "true", "world"));
    t.push(row("spawn-npcs", "生成NPC", "boolean", "true", "world"));
    t.push(row("generate-structures", "生成结构", "boolean", "true", "world"));
    t.push(row("level-name", "世界名称", "string", "world", "world"));
    t.push(row("level-seed", "世界种子", "string", "", "world"));
    t.push(row("level-type", "世界类型", "string", "minecraft:normal", "world"));
    t.push(row("view-distance", "视距", "number", "10", "performance"));
    t.push(row("simulation-distance", "模拟距离", "number", "10", "performance"));
    t.push(row("max-tick-time", "最大tick时间(ms)，-1为禁用", "number", "60000", "performance"));
    t.push(row("network-compression-threshold", "网络压缩阈值", "number", "256", "performance"));
    t.push(row("motd", "服务器描述(MOTD)", "string", "A Minecraft Server", "display"));
    t.push(row("enable-command-block", "启用命令方块", "boolean", "false", "game"));
    t.push(row("enable-query", "启用Query协议", "boolean", "false", "network"));
    t.push(row("enable-rcon", "启用RCON远程控制", "boolean", "false", "network"));
    t.push(row("enable-status", "启用服务器列表状态", "boolean", "true", "network"));
    t.push(row("force-gamemode", "强制游戏模式", "boolean", "false", "game"));
    t.push(row("spawn-protection", "出生点保护半径", "number", "16", "world"));
    t.push(row("sync-chunk-writes", "同步区块写入", "boolean", "true", "performance"));
    assert(rows_view(t@) =~= property_table());
    t
}


/// A property as the settings screen lists it.
pub struct ConfigEntry {
    pub key: String,
    pub value: String,
    pub description: String,
    pub value_type: String,
    pub default_value: String,
    pub category: String,
}

/// The content of a `ConfigEntry`.
pub struct ConfigEntryView {
    pub key: Seq<char>,
    pub value: Seq<char>,
    pub description: Seq<char>,
    pub value_type: Seq<char>,
    pub default_value: Seq<char>,
    pub category: Seq<char>,
}

impl View for ConfigEntry {
    type V = ConfigEntryView;

    open spec fn view(&self) -> ConfigEntryView {
        ConfigEntryView {
            key: self.key@,
            value: self.value@,
            description: self.description@,
            value_type: self.value_type@,
            default_value: self.default_value@,
            category: self.category@,
        }
    }
}

/// A server's properties: described and sorted, and as read.
pub struct ServerProperties {
    pub entries: Vec<ConfigEntry>,
    pub raw: Vec<(String, String)>,
}

/// The listing of property `key` set to `value`: its known description, or an
/// empty description of type `string` in category `other`.
pub open spec fn entry_for(key: Seq<char>, value: Seq<char>) -> ConfigEntryView {
    match describe_in(property_table(), key) {
        Some(d) => ConfigEntryView {
            key,
            value,
            description: d.0,
            value_type: d.1,
            default_value: d.2,
            category: d.3,
        },
        None => ConfigEntryView {
            key,
            value,
            description: Seq::empty(),
            value_type: "string"@,
            default_value: Seq::empty(),
            category: "other"@,
        },
    }
}

/// Whether `a` sorts strictly after `b`: by category, then by key.
pub open spec fn sorts_after(a: ConfigEntryView, b: ConfigEntryView) -> bool {
    cmp_text(a.category, b.category) > 0 || (cmp_text(a.category, b.category) == 0 && cmp_text(a.key, b.key) > 0)
}

/// The order of entries: by category, then by key; -1, 0 or 1.
pub open spec fn cmp_entries(a: ConfigEntryView, b: ConfigEntryView) -> int {
    if cmp_text(a.category, b.category) != 0 {
        cmp_text(a.category, b.category)
    } else {
        cmp_text(a.key, b.key)
    }
}

/// Whether no entry of `s` sorts after a later one.
pub open spec fn sorted(s: Seq<ConfigEntryView>) -> bool {
    forall|i: int, j: int| 0 <= i < j < s.len() ==> !sorts_after(#[trigger] s[i], #[trigger] s[j])
}

proof fn lemma_cmp_entries(a: ConfigEntryView, b: ConfigEntryView, c: ConfigEntryView)
    ensures
        sorts_after(a, b) == (cmp_entries(a, b) > 0),
        cmp_entries(b, a) == -cmp_entries(a, b),
        cmp_entries(a, b) < 0 && cmp_entries(b, c) <= 0 ==> cmp_entries(a, c) < 0,
{
    lemma_cmp_text_antisymmetric(a.category, b.category);
    lemma_cmp_text_antisymmetric(a.key, b.key);
    lemma_cmp_text_antisymmetric(b.category, c.category);
    lemma_cmp_text_antisymmetric(a.category, c.category);
    lemma_cmp_text_transitive(a.category, b.category, c.category);
    lemma_cmp_text_transitive(a.key, b.key, c.key);
}

proof fn lemma_insert_pos(s: Seq<ConfigEntryView>, e: ConfigEntryView)
    ensures
        0 <= insert_pos(s, e) <= s.len(),
        forall|i: int| 0 <= i < insert_pos(s, e) ==> !sorts_after(#[trigger] s[i], e),
        insert_pos(s, e) < s.len() ==> sorts_after(s[insert_pos(s, e)], e),
    decreases s.len(),
{
    if s.len() > 0 && !sorts_after(s[0], e) {
        let t = s.drop_first();
        lemma_insert_pos(t, e);
        assert forall|i: int| 0 <= i < insert_pos(s, e) implies !sorts_after(#[trigger] s[i], e) by {
            if i > 0 {
                assert(s[i] == t[i - 1]);
            }
        }
    }
}

proof fn lemma_insert_sorted(t: Seq<ConfigEntryView>, e: ConfigEntryView)
    requires
        sorted(t),
    ensures
        sorted(t.insert(insert_pos(t, e), e)),
{
    lemma_insert_pos(t, e);
    let p = insert_pos(t, e);
    let n = t.insert(p, e);
    assert forall|i: int, j: int| 0 <= i < j < n.len() implies !sorts_after(#[trigger] n[i], #[trigger] n[j]) by {
        if i < p && j < p {
            assert(n[i] == t[i] && n[j] == t[j]);
        } else if i < p && j == p {
            assert(n[i] == t[i]);
        } else if i < p {
            assert(n[i] == t[i] && n[j] == t[j - 1]);
        } else if i == p {
            let x = t[j - 1];
            assert(n[j] == x);
            lemma_cmp_entries(t[p], e, x);
            lemma_cmp_entries(e, t[p], x);
            lemma_cmp_entries(t[p], x, e);
            lemma_cmp_entries(e, x, e);
            if p < j - 1 {
                assert(!sorts_after(t[p], t[j - 1]));
            } else {
                lemma_cmp_text_antisymmetric(x.category, x.category);
                lemma_cmp_text_antisymmetric(x.key, x.key);
            }
        } else {
            assert(n[i] == t[i - 1] && n[j] == t[j - 1]);
        }
    }
}

/// The sorted listing holds the same entries as `s`, each as often, and no
/// entry sorts after a later one: `s` sorted by category, then key.
pub proof fn lemma_sort_entries(s: Seq<ConfigEntryView>)
    ensures
        sorted(sort_entries(s)),
        sort_entries(s).to_multiset() == s.to_multiset(),
    decreases s.len(),
{
    broadcast use vstd::seq_lib::group_to_multiset_ensures;

    if s.len() > 0 {
        let t = sort_entries(s.drop_last());
        lemma_sort_entries(s.drop_last());
        lemma_insert_sorted(t, s.last());
        lemma_insert_pos(t, s.last());
        vstd::seq_lib::to_multiset_insert(t, insert_pos(t, s.last()), s.last());
        assert(s.drop_last().push(s.last()) =~= s);
    }
}

/// Where `e` goes in `s`: before the first entry that sorts after it.
pub open spec fn insert_pos(s: Seq<ConfigEntryView>, e: ConfigEntryView) -> int
    decreases s.len(),
{
    if s.len() == 0 {
        0
    } else if sorts_after(s[0], e) {
        0
    } else {
        1 + insert_pos(s.drop_first(), e)
    }
}

/// `s` sorted by category, then key, entries that compare equal keeping their
/// order: each entry in turn inserted before the first that sorts after it.
pub open spec fn sort_entries(s: Seq<ConfigEntryView>) -> Seq<ConfigEntryView>
    decreases s.len(),
{
    if s.len() == 0 {
        Seq::empty()
    } else {
        let t = sort_entries(s.drop_last());
        t.insert(insert_pos(t, s.last()), s.last())
    }
}

/// The sorted listing of the properties `raw`.
pub open spec fn listing(raw: Entries) -> Seq<ConfigEntryView> {
    sort_entries(raw.map_values(|p: (Seq<char>, Seq<char>)| entry_for(p.0, p.1)))
}

/// The views of a list of entries.
pub open spec fn entries_view(v: Seq<ConfigEntry>) -> Seq<ConfigEntryView> {
    v.map_values(|e: ConfigEntry| e@)
}

/// The description of `key` in `table`.
fn describe(table: &Vec<PropertyRow>, key: &String) -> (r: Option<usize>)
    ensures
        match r {
            Some(i) => i < table@.len() && describe_in(rows_view(table@), key@) == Some(rows_view(table@)[i as int].1),
            None => describe_in(rows_view(table@), key@) is None,
        },
{
    let ghost t = rows_view(table@);
    let mut i: usize = 0;
    assert(t.skip(0) =~= t);
    while i < table.len()
        invariant
            i <= table@.len(),
            t == rows_view(table@),
            describe_in(t, key@) == describe_in(t.skip(i as int), key@),
        decreases table.len() - i,
    {
        assert(t.skip(i as int)[0] == t[i as int]);
        if table[i].0 == *key {
            return Some(i);
        }
        assert(t.skip(i as int).drop_first() =~= t.skip(i + 1));
        i = i + 1;
    }
    assert(t.skip(i as int) =~= Seq::<(Seq<char>, Description)>::empty());
    None
}

/// The listing of property `key` set to `value`.
fn make_entry(table: &Vec<PropertyRow>, key: &String, value: &String) -> (r: ConfigEntry)
    requires
        rows_view(table@) == property_table(),
    ensures
        r@ == entry_for(key@, value@),
{
    match describe(table, key) {
        Some(i) => ConfigEntry {
            key: key.clone(),
            value: value.clone(),
            description: table[i].1.0.clone(),
            value_type: table[i].1.1.clone(),
            default_value: table[i].1.2.clone(),
            category: table[i].1.3.clone(),
        },
        None => ConfigEntry {
            key: key.clone(),
            value: value.clone(),
            description: String::new(),
            value_type: "string".to_string(),
            default_value: String::new(),
            category: "other".to_string(),
        },
    }
}

/// The order of two texts.
fn text_order(a: &String, b: &String) -> (r: core::cmp::Ordering)
    ensures
        r == ordering_of(cmp_text(a@, b@)),
{
    cmp_char_seqs(&chars_of(a.as_str()), &chars_of(b.as_str()))
}

/// Whether `a` sorts strictly after `b`.
fn entry_after(a: &ConfigEntry, b: &ConfigEntry) -> (r: bool)
    ensures
        r == sorts_after(a@, b@),
{
    match text_order(&a.category, &b.category) {
        core::cmp::Ordering::Greater => true,
        core::cmp::Ordering::Less => false,
        core::cmp::Ordering::Equal => match text_order(&a.key, &b.key) {
            core::cmp::Ordering::Greater => true,
            _ => false,
        },
    }
}

/// Inserts `e` into `sorted` before the first entry that sorts after it.
fn insert_entry(sorted: &mut Vec<ConfigEntry>, e: ConfigEntry)
    ensures
        entries_view(final(sorted)@) == entries_view(old(sorted)@).insert(
            insert_pos(entries_view(old(sorted)@), e@),
            e@,
        ),
{
    let ghost s = entries_view(sorted@);
    let mut i: usize = 0;
    assert(s.skip(0) =~= s);
    while i < sorted.len() && !entry_after(&sorted[i], &e)
        invariant
            i <= sorted@.len(),
            s == entries_view(sorted@),
            insert_pos(s, e@) == i + insert_pos(s.skip(i as int), e@),
        decreases sorted.len() - i,
    {
        assert(s.skip(i as int)[0] == s[i as int]);
        assert(s.skip(i as int).drop_first() =~= s.skip(i + 1));
        i = i + 1;
    }
    if i < sorted.len() {
        assert(s.skip(i as int)[0] == s[i as int]);
    }
    sorted.insert(i, e);
    assert(entries_view(sorted@) =~= s.insert(i as int, e@));
}

/// The properties of the `server.properties` contents `content`: as read, and
/// as listed with their descriptions, sorted by category and then key.
pub fn parse_server_properties(content: &str) -> (r: ServerProperties)
    ensures
        pairs_view(r.raw@) == properties_of(lines_of(content@)),
        entries_view(r.entries@) == listing(pairs_view(r.raw@)),
        sorted(entries_view(r.entries@)),
        entries_view(r.entries@).to_multiset() == pairs_view(r.raw@).map_values(
            |p: (Seq<char>, Seq<char>)| entry_for(p.0, p.1),
        ).to_multiset(),
{
    let raw = read_properties(content);
    let table = get_property_descriptions();
    let ghost unsorted = pairs_view(raw@).map_values(|p: (Seq<char>, Seq<char>)| entry_for(p.0, p.1));
    let mut entries: Vec<ConfigEntry> = Vec::new();
    let mut k: usize = 0;
    assert(unsorted.take(0) =~= Seq::<ConfigEntryView>::empty());
    assert(entries_view(entries@) =~= Seq::<ConfigEntryView>::empty());
    while k < raw.len()
        invariant
            k <= raw@.len(),
            rows_view(table@) == property_table(),
            unsorted == pairs_view(raw@).map_values(|p: (Seq<char>, Seq<char>)| entry_for(p.0, p.1)),
            entries_view(entries@) == sort_entries(unsorted.take(k as int)),
        decreases raw.len() - k,
    {
        let e = make_entry(&table, &raw[k].0, &raw[k].1);
        assert(unsorted.take(k + 1).drop_last() =~= unsorted.take(k as int));
        assert(unsorted.take(k + 1).last() == e@);
        insert_entry(&mut entries, e);
        k = k + 1;
    }
    assert(unsorted.take(k as int) =~= unsorted);
    proof {
        lemma_sort_entries(unsorted);
    }
    ServerProperties { entries, raw }
}

} // verus!
