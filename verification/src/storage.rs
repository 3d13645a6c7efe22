//! Virtual machine storage: the storage configuration file, the listing that
//! `pvesh` prints, the backends' own figures, and which storage to show.

use vstd::prelude::*;
use vstd::slice::slice_subrange;

use crate::numbers::{number, parse_u64};
use crate::text::{
    before, chars_of, contains, find, find_in, holds_text, lemma_run_facts, lines, pieces, run,
    run_len, same_text, split_at_char, split_lines, split_words, string_of, trim, trim_start,
    trimmed, trimmed_start, views, words, Class,
};

verus! {

// ---- the configuration file ----

/// A section of the storage configuration: its type, its name and its
/// properties as key and value, in the order of the file.
pub type CfgSection = (String, String, Vec<(String, String)>);

/// What a section holds.
pub struct Section {
    pub stype: Seq<char>,
    pub name: Seq<char>,
    pub props: Seq<(Seq<char>, Seq<char>)>,
}

/// The properties of a section.
pub open spec fn props_view(v: Seq<(String, String)>) -> Seq<(Seq<char>, Seq<char>)> {
    Seq::new(v.len(), |i: int| (v[i].0@, v[i].1@))
}

/// What a section holds.
pub open spec fn section_view(s: CfgSection) -> Section {
    Section { stype: s.0@, name: s.1@, props: props_view(s.2@) }
}

/// What a list of sections holds.
pub open spec fn sections_view(v: Seq<CfgSection>) -> Seq<Section> {
    Seq::new(v.len(), |i: int| section_view(v[i]))
}

/// The property on an indented line: the key up to the first white space,
/// and the value behind it, trimmed.
pub open spec fn property_of(line: Seq<char>) -> (Seq<char>, Seq<char>) {
    let t = trim(line);
    let n = run(t, Class::Ink);
    (
        t.take(n as int),
        if n < t.len() {
            trim(t.skip(n as int + 1))
        } else {
            Seq::empty()
        },
    )
}

/// The sections after one more line. A blank line changes nothing; a line
/// that is not indented opens a section if it holds a colon; an indented
/// line adds a property to the section that is open.
pub open spec fn with_line(sections: Seq<Section>, line: Seq<char>) -> Seq<Section> {
    let colon = run(line, Class::Except(':'));
    if trim(line).len() == 0 {
        sections
    } else if line[0] != ' ' && line[0] != '\t' {
        if colon < line.len() {
            sections.push(
                Section {
                    stype: trim(line.take(colon as int)),
                    name: trim(line.skip(colon as int + 1)),
                    props: Seq::empty(),
                },
            )
        } else {
            sections
        }
    } else if sections.len() > 0 {
        let open = sections.last();
        sections.drop_last().push(
            Section { props: open.props.push(property_of(line)), ..open },
        )
    } else {
        sections
    }
}

/// The sections that the given lines make.
pub open spec fn sections_of(ls: Seq<Seq<char>>) -> Seq<Section>
    decreases ls.len(),
{
    if ls.len() == 0 {
        Seq::empty()
    } else {
        with_line(sections_of(ls.drop_last()), ls.last())
    }
}

proof fn lemma_blank(line: Seq<char>)
    ensures
        line.len() == 0 ==> trim(line).len() == 0,
{
    lemma_run_facts(line, Class::White);
}

fn add_line(sections: &mut Vec<CfgSection>, line: &[char])
    ensures
        sections_view(final(sections)@) == with_line(sections_view(old(sections)@), line@),
{
    let t = trimmed(line);
    proof {
        lemma_blank(line@);
    }
    if t.len() == 0 {
        return ;
    }
    let ghost was = sections@;
    if line[0] != ' ' && line[0] != '\t' {
        let colon: usize = run_len(line, Class::Except(':'));
        if colon < line.len() {
            let stype = string_of(trimmed(slice_subrange(line, 0, colon)));
            let name = string_of(trimmed(slice_subrange(line, colon + 1, line.len())));
            assert(line@.subrange(colon + 1, line@.len() as int) == line@.skip(colon as int + 1));
            let props: Vec<(String, String)> = Vec::new();
            sections.push((stype, name, props));
            assert(props_view(sections@.last().2@) =~= Seq::empty());
            assert(sections_view(sections@) =~= with_line(sections_view(was), line@));
        }
    } else {
        if let Some(mut open) = sections.pop() {
            let n: usize = run_len(t, Class::Ink);
            let key = string_of(slice_subrange(t, 0, n));
            let value = if n < t.len() {
                assert(t@.subrange(n + 1, t@.len() as int) == t@.skip(n as int + 1));
                string_of(trimmed(slice_subrange(t, n + 1, t.len())))
            } else {
                String::new()
            };
            let ghost held = open;
            open.2.push((key, value));
            assert(props_view(open.2@) =~= props_view(held.2@).push(property_of(line@)));
            sections.push(open);
            assert(sections_view(sections@) =~= with_line(sections_view(was), line@));
        }
    }
}

/// The sections of a storage configuration file: a section starts at a line
/// "type: name" that is not indented; its properties are the indented lines
/// "key value" below.
pub fn storage_cfg_sections(cfg: &str) -> (r: Vec<CfgSection>)
    ensures
        sections_view(r@) == sections_of(lines(cfg@)),
{
    let text = chars_of(cfg);
    let ls = split_lines(&text);
    let ghost all = lines(cfg@);
    let mut sections: Vec<CfgSection> = Vec::new();
    let mut i: usize = 0;
    assert(sections_view(sections@) =~= Seq::<Section>::empty());
    assert(all.take(0) =~= Seq::<Seq<char>>::empty());
    while i < ls.len()
        invariant
            i <= ls@.len(),
            views(ls@) == all,
            sections_view(sections@) == sections_of(all.take(i as int)),
        decreases ls@.len() - i,
    {
        assert(ls@[i as int]@ == all[i as int]);
        assert(all.take(i + 1).drop_last() =~= all.take(i as int));
        add_line(&mut sections, &ls[i]);
        i = i + 1;
    }
    assert(all.take(i as int) =~= all);
    sections
}

/// The value of the first property with the given key.
pub open spec fn lookup(props: Seq<(Seq<char>, Seq<char>)>, key: Seq<char>) -> Option<Seq<char>>
    decreases props.len(),
{
    if props.len() == 0 {
        None
    } else if props[0].0 == key {
        Some(props[0].1)
    } else {
        lookup(props.drop_first(), key)
    }
}

/// The value of the first property with the given key.
pub fn property<'a>(props: &'a Vec<(String, String)>, key: &str) -> (r: Option<&'a String>)
    ensures
        match r {
            Some(v) => lookup(props_view(props@), key@) == Some(v@),
            None => lookup(props_view(props@), key@) is None,
        },
{
    let want = chars_of(key);
    let ghost all = props_view(props@);
    let mut i: usize = 0;
    assert(all.skip(0) =~= all);
    while i < props.len()
        invariant
            i <= props@.len(),
            all == props_view(props@),
            want@ == key@,
            lookup(all, key@) == lookup(all.skip(i as int), key@),
        decreases props@.len() - i,
    {
        let k = chars_of(props[i].0.as_str());
        assert(all.skip(i as int)[0] == all[i as int]);
        assert(all.skip(i as int).drop_first() =~= all.skip(i + 1));
        if same_text(&k, key) {
            return Some(&props[i].1);
        }
        i = i + 1;
    }
    None
}

/// A question to a storage backend.
pub enum Backend {
    /// How full an LVM thin pool is.
    ThinPool { vg: String, pool: String },
    /// How full a ZFS dataset is.
    Dataset { pool: String },
    /// How full an LVM volume group is.
    VolumeGroup { vg: String },
}

/// What a question holds.
pub enum BackendView {
    ThinPool { vg: Seq<char>, pool: Seq<char> },
    Dataset { pool: Seq<char> },
    VolumeGroup { vg: Seq<char> },
}

impl View for Backend {
    type V = BackendView;

    open spec fn view(&self) -> BackendView {
        match *self {
            Backend::ThinPool { vg, pool } => BackendView::ThinPool { vg: vg@, pool: pool@ },
            Backend::Dataset { pool } => BackendView::Dataset { pool: pool@ },
            Backend::VolumeGroup { vg } => BackendView::VolumeGroup { vg: vg@ },
        }
    }
}

/// The name of a storage and the question that gives its figures.
pub type Query = (String, Backend);

/// What a list of queries holds.
pub open spec fn queries_view(v: Seq<Query>) -> Seq<(Seq<char>, BackendView)> {
    Seq::new(v.len(), |i: int| (v[i].0@, v[i].1@))
}

/// Whether an optional flag is set: there, and not "0".
pub open spec fn flag_set(v: Option<Seq<char>>) -> bool {
    v is Some && v->0 != "0"@
}

/// The query for a section: one that holds virtual machine images, is not
/// disabled, is not shared with other nodes, and is of a local block type
/// with the properties that the question needs.
pub open spec fn query_of(s: Section) -> Option<(Seq<char>, BackendView)> {
    let content = lookup(s.props, "content"@);
    let vg = lookup(s.props, "vgname"@);
    let thin = lookup(s.props, "thinpool"@);
    let pool = lookup(s.props, "pool"@);
    if content is None || !contains(content->0, "images"@) || flag_set(
        lookup(s.props, "disable"@),
    ) || flag_set(lookup(s.props, "shared"@)) {
        None
    } else if s.stype == "lvmthin"@ {
        if vg is Some && thin is Some {
            Some((s.name, BackendView::ThinPool { vg: vg->0, pool: thin->0 }))
        } else {
            None
        }
    } else if s.stype == "zfspool"@ {
        if pool is Some {
            Some((s.name, BackendView::Dataset { pool: pool->0 }))
        } else {
            None
        }
    } else if s.stype == "lvm"@ {
        if vg is Some {
            Some((s.name, BackendView::VolumeGroup { vg: vg->0 }))
        } else {
            None
        }
    } else {
        None
    }
}

/// The queries for a list of sections, in order.
pub open spec fn queries_of(sections: Seq<Section>) -> Seq<(Seq<char>, BackendView)>
    decreases sections.len(),
{
    if sections.len() == 0 {
        Seq::empty()
    } else {
        let rest = queries_of(sections.drop_last());
        match query_of(sections.last()) {
            Some(q) => rest.push(q),
            None => rest,
        }
    }
}

fn flag(props: &Vec<(String, String)>, key: &str) -> (r: bool)
    ensures
        r == flag_set(lookup(props_view(props@), key@)),
{
    match property(props, key) {
        Some(v) => {
            let c = chars_of(v.as_str());
            !same_text(&c, "0")
        },
        None => false,
    }
}

fn query_for(section: &CfgSection) -> (r: Option<Query>)
    ensures
        match r {
            Some(q) => query_of(section_view(*section)) == Some((q.0@, q.1@)),
            None => query_of(section_view(*section)) is None,
        },
{
    let props = &section.2;
    match property(props, "content") {
        None => {
            return None;
        },
        Some(content) => {
            let c = chars_of(content.as_str());
            if !holds_text(&c, "images") {
                return None;
            }
        },
    }
    if flag(props, "disable") || flag(props, "shared") {
        return None;
    }
    let stype = chars_of(section.0.as_str());
    if same_text(&stype, "lvmthin") {
        match (property(props, "vgname"), property(props, "thinpool")) {
            (Some(vg), Some(pool)) => Some(
                (section.1.clone(), Backend::ThinPool { vg: vg.clone(), pool: pool.clone() }),
            ),
            _ => None,
        }
    } else if same_text(&stype, "zfspool") {
        match property(props, "pool") {
            Some(pool) => Some((section.1.clone(), Backend::Dataset { pool: pool.clone() })),
            None => None,
        }
    } else if same_text(&stype, "lvm") {
        match property(props, "vgname") {
            Some(vg) => Some((section.1.clone(), Backend::VolumeGroup { vg: vg.clone() })),
            None => None,
        }
    } else {
        None
    }
}

/// The questions to ask for the storages of a configuration that hold
/// virtual machine images on this node's own disks.
pub fn storage_queries(sections: &Vec<CfgSection>) -> (r: Vec<Query>)
    ensures
        queries_view(r@) == queries_of(sections_view(sections@)),
{
    let ghost all = sections_view(sections@);
    let mut r: Vec<Query> = Vec::new();
    let mut i: usize = 0;
    assert(queries_view(r@) =~= Seq::empty());
    assert(all.take(0) =~= Seq::<Section>::empty());
    while i < sections.len()
        invariant
            i <= sections@.len(),
            all == sections_view(sections@),
            queries_view(r@) == queries_of(all.take(i as int)),
        decreases sections@.len() - i,
    {
        assert(all.take(i + 1).drop_last() =~= all.take(i as int));
        let ghost was = r@;
        if let Some(q) = query_for(&sections[i]) {
            r.push(q);
            assert(queries_view(r@) =~= queries_view(was).push((q.0@, q.1@)));
        }
        i = i + 1;
    }
    assert(all.take(i as int) =~= all);
    r
}

// ---- choosing a storage ----

/// A storage's name, used bytes and total bytes.
pub type Storage = (String, u64, u64);

/// What a storage holds.
pub open spec fn storage_view(s: Storage) -> (Seq<char>, u64, u64) {
    (s.0@, s.1, s.2)
}

/// The storage with the largest total, the last such where several tie.
pub open spec fn largest(c: Seq<(Seq<char>, u64, u64)>) -> Option<(Seq<char>, u64, u64)>
    decreases c.len(),
{
    if c.len() == 0 {
        None
    } else {
        match largest(c.drop_last()) {
            Some(best) if best.2 > c.last().2 => Some(best),
            _ => Some(c.last()),
        }
    }
}

/// A candidate kept, or not: only storages with a total are shown.
pub open spec fn with_candidate(
    c: Seq<(Seq<char>, u64, u64)>,
    s: Option<(Seq<char>, u64, u64)>,
) -> Seq<(Seq<char>, u64, u64)> {
    if s is Some && (s->0).2 > 0 {
        c.push(s->0)
    } else {
        c
    }
}

/// The figures that came back, as candidates.
pub open spec fn answered(
    queries: Seq<(Seq<char>, BackendView)>,
    figures: Seq<Option<(u64, u64)>>,
) -> Seq<(Seq<char>, u64, u64)>
    decreases figures.len(),
{
    if figures.len() == 0 {
        Seq::empty()
    } else {
        let rest = answered(queries, figures.drop_last());
        match figures.last() {
            Some(f) => with_candidate(rest, Some((queries[figures.len() - 1].0, f.0, f.1))),
            None => rest,
        }
    }
}

fn better(best: Option<Storage>, s: Storage) -> (r: Option<Storage>)
    ensures
        r is Some,
        storage_view(r->0) == (match best {
            Some(b) if b.2 > s.2 => storage_view(b),
            _ => storage_view(s),
        }),
{
    match best {
        Some(b) => if b.2 > s.2 {
            Some(b)
        } else {
            Some(s)
        },
        None => Some(s),
    }
}

/// The node's main storage for virtual machines: the one that Proxmox lists,
/// or, where it lists none, the one that the configuration leads to.
pub fn vm_storage_choice(listed: Option<Storage>, configured: Option<Storage>) -> (r: Option<
    Storage,
>)
    ensures
        r == (if listed is Some {
            listed
        } else {
            configured
        }),
{
    match listed {
        Some(s) => Some(s),
        None => configured,
    }
}

/// The storage to show, from the figures that the backends gave (none where
/// a backend could not say): the one with the largest total.
pub fn storage_cfg_vm_storage(queries: &Vec<Query>, figures: &Vec<Option<(u64, u64)>>) -> (r: Option<
    Storage,
>)
    requires
        figures@.len() == queries@.len(),
    ensures
        match r {
            Some(s) => largest(answered(queries_view(queries@), figures@)) == Some(storage_view(s)),
            None => largest(answered(queries_view(queries@), figures@)) is None,
        },
{
    let ghost qs = queries_view(queries@);
    let ghost mut c: Seq<(Seq<char>, u64, u64)> = Seq::empty();
    let mut best: Option<Storage> = None;
    let mut i: usize = 0;
    assert(figures@.take(0) =~= Seq::<Option<(u64, u64)>>::empty());
    while i < figures.len()
        invariant
            i <= figures@.len(),
            figures@.len() == queries@.len(),
            qs == queries_view(queries@),
            c == answered(qs, figures@.take(i as int)),
            match best {
                Some(s) => largest(c) == Some(storage_view(s)),
                None => largest(c) is None,
            },
        decreases figures@.len() - i,
    {
        assert(figures@.take(i + 1).drop_last() =~= figures@.take(i as int));
        if let Some(f) = figures[i] {
            if f.1 > 0 {
                proof {
                    let d = c.push((qs[i as int].0, f.0, f.1));
                    assert(d.drop_last() =~= c);
                    c = d;
                }
                best = better(best, (queries[i].0.clone(), f.0, f.1));
            }
        }
        i = i + 1;
    }
    assert(figures@.take(i as int) =~= figures@);
    best
}

// ---- the listing of pvesh ----

/// A key of a flat JSON object with its quotes and colon.
pub open spec fn json_key(key: Seq<char>) -> Seq<char> {
    "\""@ + key + "\":"@
}

/// The string value of a key in a flat JSON object: what stands between the
/// quote behind the key and the next one.
pub open spec fn json_string(obj: Seq<char>, key: Seq<char>) -> Option<Seq<char>> {
    let pattern = json_key(key) + "\""@;
    match find(obj, pattern) {
        Some(i) => {
            let rest = obj.skip(i + pattern.len());
            if run(rest, Class::Except('"')) < rest.len() {
                Some(before(rest, '"'))
            } else {
                None
            }
        },
        None => None,
    }
}

/// The integer value of a key in a flat JSON object, with or without quotes
/// before its digits.
pub open spec fn json_number(obj: Seq<char>, key: Seq<char>) -> Option<nat> {
    let pattern = json_key(key);
    match find(obj, pattern) {
        Some(i) => {
            let rest = trim_start(obj.skip(i + pattern.len()));
            let bare = rest.skip(run(rest, Class::Only('"')) as int);
            number(bare.take(run(bare, Class::Digit) as int), 10, u64::MAX as nat)
        },
        None => None,
    }
}

fn key_pattern(key: &str, tail: &str) -> (v: Vec<char>)
    ensures
        v@ == "\""@ + key@ + tail@,
{
    let mut s = "\"".to_owned();
    s.append(key);
    s.append(tail);
    chars_of(s.as_str())
}

/// The string value of `"key":"..."` in a flat JSON object, if present.
pub fn json_str<'a>(obj: &'a [char], key: &str) -> (r: Option<&'a [char]>)
    ensures
        match r {
            Some(v) => json_string(obj@, key@) == Some(v@),
            None => json_string(obj@, key@) is None,
        },
{
    let pattern = key_pattern(key, "\":\"");
    proof {
        reveal_strlit("\":\"");
        reveal_strlit("\":");
        reveal_strlit("\"");
        assert(pattern@ =~= json_key(key@) + "\""@);
    }
    match find_in(obj, &pattern) {
        Some(i) => {
            let rest = slice_subrange(obj, i + pattern.len(), obj.len());
            assert(rest@ == obj@.skip(i + pattern@.len()));
            let n: usize = run_len(rest, Class::Except('"'));
            if n < rest.len() {
                Some(slice_subrange(rest, 0, n))
            } else {
                None
            }
        },
        None => None,
    }
}

/// The integer value of `"key":123` in a flat JSON object, if present.
pub fn json_u64(obj: &[char], key: &str) -> (r: Option<u64>)
    ensures
        match r {
            Some(v) => json_number(obj@, key@) == Some(v as nat),
            None => json_number(obj@, key@) is None,
        },
{
    let pattern = key_pattern(key, "\":");
    match find_in(obj, &pattern) {
        Some(i) => {
            let tail = slice_subrange(obj, i + pattern.len(), obj.len());
            assert(tail@ == obj@.skip(i + pattern@.len()));
            let rest = trimmed_start(tail);
            let quotes: usize = run_len(rest, Class::Only('"'));
            let bare = slice_subrange(rest, quotes, rest.len());
            assert(bare@ == rest@.skip(quotes as int));
            let digits: usize = run_len(bare, Class::Digit);
            parse_u64(slice_subrange(bare, 0, digits))
        },
        None => None,
    }
}

/// Whether a storage type keeps its data on this node's own block devices.
pub open spec fn local_block_type(t: Seq<char>) -> bool {
    t == "lvmthin"@ || t == "lvm"@ || t == "zfspool"@ || t == "zfs"@ || t == "btrfs"@
}

/// The storage that one object of the listing describes: one that holds
/// virtual machine images on a local block type, and is neither inactive,
/// nor disabled, nor shared.
pub open spec fn listed(obj: Seq<char>) -> Option<(Seq<char>, u64, u64)> {
    let content = json_string(obj, "content"@);
    let stype = json_string(obj, "type"@);
    if content is None || !contains(content->0, "images"@) || stype is None || !local_block_type(
        stype->0,
    ) || json_number(obj, "active"@) == Some(0nat) || json_number(obj, "enabled"@) == Some(0nat)
        || json_number(obj, "shared"@) == Some(1nat) {
        None
    } else {
        Some(
            (
                match json_string(obj, "storage"@) {
                    Some(n) => n,
                    None => "vm"@,
                },
                match json_number(obj, "used"@) {
                    Some(n) => n as u64,
                    None => 0,
                },
                match json_number(obj, "total"@) {
                    Some(n) => n as u64,
                    None => 0,
                },
            ),
        )
    }
}

/// The candidates that the objects of a listing give.
pub open spec fn listed_all(objs: Seq<Seq<char>>) -> Seq<(Seq<char>, u64, u64)>
    decreases objs.len(),
{
    if objs.len() == 0 {
        Seq::empty()
    } else {
        with_candidate(listed_all(objs.drop_last()), listed(objs.last()))
    }
}

fn is_local_block_type(t: &[char]) -> (r: bool)
    ensures
        r == local_block_type(t@),
{
    same_text(t, "lvmthin") || same_text(t, "lvm") || same_text(t, "zfspool") || same_text(t, "zfs")
        || same_text(t, "btrfs")
}

fn listed_storage(obj: &[char]) -> (r: Option<Storage>)
    ensures
        match r {
            Some(s) => listed(obj@) == Some(storage_view(s)),
            None => listed(obj@) is None,
        },
{
    match json_str(obj, "content") {
        Some(content) => if !holds_text(content, "images") {
            return None;
        },
        None => {
            return None;
        },
    }
    match json_str(obj, "type") {
        Some(stype) => if !is_local_block_type(stype) {
            return None;
        },
        None => {
            return None;
        },
    }
    if let Some(v) = json_u64(obj, "active") {
        if v == 0 {
            return None;
        }
    }
    if let Some(v) = json_u64(obj, "enabled") {
        if v == 0 {
            return None;
        }
    }
    if let Some(v) = json_u64(obj, "shared") {
        if v == 1 {
            return None;
        }
    }
    let name = match json_str(obj, "storage") {
        Some(n) => string_of(n),
        None => "vm".to_owned(),
    };
    let used: u64 = match json_u64(obj, "used") {
        Some(v) => v,
        None => 0,
    };
    let total: u64 = match json_u64(obj, "total") {
        Some(v) => v,
        None => 0,
    };
    Some((name, used, total))
}

/// The storage to show, from the JSON listing of a node's storages: the one
/// with the largest total. The objects are flat, so each brace that opens
/// starts one.
pub fn pvesh_vm_storage(json: &str) -> (r: Option<Storage>)
    ensures
        match r {
            Some(s) => largest(listed_all(pieces(json@, '{').skip(1))) == Some(storage_view(s)),
            None => largest(listed_all(pieces(json@, '{').skip(1))) is None,
        },
{
    let text = chars_of(json);
    let objs = split_at_char(&text, '{');
    let ghost all = pieces(json@, '{').skip(1);
    let ghost mut c: Seq<(Seq<char>, u64, u64)> = Seq::empty();
    let mut best: Option<Storage> = None;
    let mut i: usize = 1;
    assert(pieces(json@, '{').len() >= 1);
    assert(views(objs@).len() == objs@.len());
    assert(all.take(0) =~= Seq::<Seq<char>>::empty());
    while i < objs.len()
        invariant
            1 <= i <= objs@.len(),
            views(objs@) == pieces(json@, '{'),
            all == pieces(json@, '{').skip(1),
            c == listed_all(all.take(i - 1)),
            match best {
                Some(s) => largest(c) == Some(storage_view(s)),
                None => largest(c) is None,
            },
        decreases objs@.len() - i,
    {
        assert(all.take(i as int).drop_last() =~= all.take(i - 1));
        assert(all.take(i as int).last() == views(objs@)[i as int]);
        if let Some(s) = listed_storage(&objs[i]) {
            if s.2 > 0 {
                proof {
                    let d = c.push(storage_view(s));
                    assert(d.drop_last() =~= c);
                    c = d;
                }
                best = better(best, s);
            }
        }
        i = i + 1;
    }
    assert(all.take(i - 1) =~= all);
    best
}

// ---- the backends' figures ----

/// The first two words of a text.
pub open spec fn two_words(s: Seq<char>) -> Option<(Seq<char>, Seq<char>)> {
    let w = words(s);
    if w.len() >= 2 {
        Some((w[0], w[1]))
    } else {
        None
    }
}

/// The first two words of a text as numbers.
pub open spec fn two_numbers(s: Seq<char>) -> Option<(nat, nat)> {
    match two_words(s) {
        Some(w) => match (number(w.0, 10, u64::MAX as nat), number(w.1, 10, u64::MAX as nat)) {
            (Some(a), Some(b)) => Some((a, b)),
            _ => None,
        },
        None => None,
    }
}

/// The first two words of a backend's output as numbers, if they are that.
pub fn parse_two_numbers(out: &str) -> (r: Option<(u64, u64)>)
    ensures
        match r {
            Some(p) => two_numbers(out@) == Some((p.0 as nat, p.1 as nat)),
            None => two_numbers(out@) is None,
        },
{
    let text = chars_of(out);
    let w = split_words(&text);
    assert(views(w@).len() == w@.len());
    if w.len() < 2 {
        return None;
    }
    assert(views(w@)[0] == w@[0]@ && views(w@)[1] == w@[1]@);
    match (parse_u64(&w[0]), parse_u64(&w[1])) {
        (Some(a), Some(b)) => Some((a, b)),
        _ => None,
    }
}

/// Used and total bytes of a ZFS dataset, from its "used avail" line: what
/// it could hold is what it uses and what is left.
pub fn zfs_used_total(out: &str) -> (r: Option<(u64, u64)>)
    requires
        two_numbers(out@) matches Some(p) ==> p.0 + p.1 <= u64::MAX,
    ensures
        match r {
            Some(f) => two_numbers(out@) matches Some(p) && f.0 == p.0 && f.1 == p.0 + p.1,
            None => two_numbers(out@) is None,
        },
{
    match parse_two_numbers(out) {
        Some((used, avail)) => Some((used, used + avail)),
        None => None,
    }
}

/// Used and total bytes of an LVM volume group, from its "size free" line.
pub fn vg_used_total(out: &str) -> (r: Option<(u64, u64)>)
    ensures
        match r {
            Some(f) => two_numbers(out@) matches Some(p) && f.1 == p.0 && f.0 == (if p.0 >= p.1 {
                p.0 - p.1
            } else {
                0
            }),
            None => two_numbers(out@) is None,
        },
{
    match parse_two_numbers(out) {
        Some((size, free)) => Some((size.saturating_sub(free), size)),
        None => None,
    }
}

/// The size of an LVM thin pool in bytes and the text of its fill
/// percentage, from its "size percent" line.
pub fn lvmthin_fields(out: &str) -> (r: Option<(u64, String)>)
    ensures
        match r {
            Some(f) => two_words(out@) matches Some(w) && number(w.0, 10, u64::MAX as nat) == Some(
                f.0 as nat,
            ) && f.1@ == w.1,
            None => two_words(out@) matches Some(w) ==> number(w.0, 10, u64::MAX as nat) is None,
        },
{
    let text = chars_of(out);
    let w = split_words(&text);
    assert(views(w@).len() == w@.len());
    if w.len() < 2 {
        return None;
    }
    assert(views(w@)[0] == w@[0]@ && views(w@)[1] == w@[1]@);
    match parse_u64(&w[0]) {
        Some(size) => Some((size, string_of(&w[1]))),
        None => None,
    }
}

} // verus!
