//! Storage: which of the listed or configured storages are this node's own,
//! and what is read of them.

use vstd::prelude::*;

use crate::laws::columns::lemma_in_push;
use crate::laws::figures::read;
use crate::laws::paging::law_trimming_takes_white_space_only;
use crate::laws::storage::law_the_largest_storage_is_shown;
use crate::laws::texts::{
    first_stands, law_cut_at_every_occurrence, law_digits_are_numbers, law_searches_find_the_first,
    law_trimmed, stands,
};
use crate::storage::{
    answered, json_key, json_number, json_string, largest, listed, listed_all, lookup, property_of,
    queries_of, query_of, sections_of, two_numbers, two_words, with_line, BackendView, Section,
};
use crate::text::{
    before, lemma_run, pieces, trim, trim_start, white_space, words, Class,
};

verus! {

// ---- values in an object of the listing ----

/// The string value of a key is what stands between the quotes behind the
/// first place at which the key stands with its quotes, a colon and a quote.
pub proof fn law_json_strings(obj: Seq<char>, key: Seq<char>, pat: Seq<char>, i: int, q: int)
    requires
        pat == seq!['"'] + key + seq!['"', ':', '"'],
        first_stands(obj, pat, i),
    ensures
        i + pat.len() <= q < obj.len() && obj[q] == '"' && (forall|k: int|
            i + pat.len() <= k < q ==> #[trigger] obj[k] != '"') ==> json_string(obj, key) == Some(
            obj.subrange(i + pat.len(), q),
        ),
        (forall|k: int| i + pat.len() <= k < obj.len() ==> #[trigger] obj[k] != '"')
            ==> json_string(obj, key) is None,
{
    reveal_strlit("\"");
    reveal_strlit("\":");
    assert(json_key(key) + "\""@ =~= pat);
    law_searches_find_the_first(obj, pat, i);
    let e = i + pat.len();
    let rest = obj.skip(e);
    let k = Class::Except('"');
    if i + pat.len() <= q < obj.len() && obj[q] == '"' && (forall|k: int|
        i + pat.len() <= k < q ==> #[trigger] obj[k] != '"') {
        assert forall|j: int| 0 <= j < q - e implies k.holds(#[trigger] rest[j]) by {
            assert(obj[e + j] != '"');
        }
        lemma_run(rest, k, q - e);
        assert(before(rest, '"') =~= obj.subrange(e, q));
    }
    if forall|k: int| i + pat.len() <= k < obj.len() ==> #[trigger] obj[k] != '"' {
        assert forall|j: int| 0 <= j < rest.len() implies k.holds(#[trigger] rest[j]) by {
            assert(obj[e + j] != '"');
        }
        lemma_run(rest, k, rest.len() as int);
    }
}

/// The number of a key is what the digits write that stand behind the key with
/// its quotes and a colon, white space and quotes before them skipped; without
/// a digit there it has none.
pub proof fn law_json_numbers(
    obj: Seq<char>,
    key: Seq<char>,
    pat: Seq<char>,
    i: int,
    a: int,
    b: int,
    c: int,
)
    requires
        pat == seq!['"'] + key + seq!['"', ':'],
        first_stands(obj, pat, i),
        i + pat.len() <= a <= b <= c <= obj.len(),
        forall|k: int| i + pat.len() <= k < a ==> white_space(#[trigger] obj[k]),
        a < obj.len() ==> !white_space(obj[a]),
        forall|k: int| a <= k < b ==> #[trigger] obj[k] == '"',
        b < obj.len() ==> obj[b] != '"',
        forall|k: int| b <= k < c ==> '0' <= #[trigger] obj[k] <= '9',
        c < obj.len() ==> !('0' <= obj[c] <= '9'),
    ensures
        b < c && read(obj.subrange(b, c)) <= u64::MAX ==> json_number(obj, key) == Some(
            read(obj.subrange(b, c)) as nat,
        ),
        b < c && read(obj.subrange(b, c)) > u64::MAX ==> json_number(obj, key) is None,
        b == c ==> json_number(obj, key) is None,
{
    reveal_strlit("\"");
    reveal_strlit("\":");
    assert(json_key(key) =~= pat);
    law_searches_find_the_first(obj, pat, i);
    let e = i + pat.len();
    let tail = obj.skip(e);
    assert forall|j: int| 0 <= j < a - e implies Class::White.holds(#[trigger] tail[j]) by {
        assert(white_space(obj[e + j]));
    }
    if a < obj.len() {
        assert(tail[a - e] == obj[a]);
    }
    lemma_run(tail, Class::White, a - e);
    let rest = trim_start(tail);
    assert(rest =~= obj.skip(a));
    assert forall|j: int| 0 <= j < b - a implies Class::Only('"').holds(#[trigger] rest[j]) by {
        assert(obj[a + j] == '"');
    }
    if b < obj.len() {
        assert(rest[b - a] == obj[b]);
    }
    lemma_run(rest, Class::Only('"'), b - a);
    let bare = rest.skip(b - a);
    assert(bare =~= obj.skip(b));
    assert forall|j: int| 0 <= j < c - b implies Class::Digit.holds(#[trigger] bare[j]) by {
        assert('0' <= obj[b + j] <= '9');
    }
    if c < obj.len() {
        assert(bare[c - b] == obj[c]);
    }
    lemma_run(bare, Class::Digit, c - b);
    let digits = obj.subrange(b, c);
    assert(bare.take(c - b) =~= digits);
    assert forall|k: int| 0 <= k < digits.len() implies '0' <= #[trigger] digits[k] <= '9' by {
        assert('0' <= obj[b + k] <= '9');
    }
    law_digits_are_numbers(digits, u64::MAX as nat, 0);
}

/// A key that stands nowhere in an object has no value.
pub proof fn law_json_without_the_key(obj: Seq<char>, key: Seq<char>, pat: Seq<char>)
    requires
        pat == seq!['"'] + key + seq!['"', ':'],
    ensures
        (forall|j: int| !#[trigger] stands(obj, pat, j)) ==> json_number(obj, key) is None,
        (forall|j: int| !#[trigger] stands(obj, pat.push('"'), j)) ==> json_string(obj, key) is None,
{
    reveal_strlit("\"");
    reveal_strlit("\":");
    assert(json_key(key) =~= pat);
    assert(json_key(key) + "\""@ =~= pat.push('"'));
    law_searches_find_the_first(obj, pat, 0);
    law_searches_find_the_first(obj, pat.push('"'), 0);
}

// ---- what is listed ----

/// An object of the listing is a storage of this node exactly when its content
/// holds images, its type is one of those on the node's own block devices, and
/// it is not inactive, not disabled and not shared. It goes by its name, or by
/// "vm" where it has none, with the figures that it gives, or zero.
pub proof fn law_listed_storages(obj: Seq<char>)
    ensures
        listed(obj) is Some <==> {
            &&& json_string(obj, "content"@) is Some
            &&& exists|j: int| #[trigger] stands(json_string(obj, "content"@)->0, "images"@, j)
            &&& {
                ||| json_string(obj, "type"@) == Some("lvmthin"@)
                ||| json_string(obj, "type"@) == Some("lvm"@)
                ||| json_string(obj, "type"@) == Some("zfspool"@)
                ||| json_string(obj, "type"@) == Some("zfs"@)
                ||| json_string(obj, "type"@) == Some("btrfs"@)
            }
            &&& json_number(obj, "active"@) != Some(0nat)
            &&& json_number(obj, "enabled"@) != Some(0nat)
            &&& json_number(obj, "shared"@) != Some(1nat)
        },
        listed(obj) matches Some(s) ==> {
            &&& json_string(obj, "storage"@) is Some ==> s.0 == json_string(obj, "storage"@)->0
            &&& json_string(obj, "storage"@) is None ==> s.0 == "vm"@
            &&& json_number(obj, "used"@) is Some ==> s.1 == json_number(obj, "used"@)->0
            &&& json_number(obj, "used"@) is None ==> s.1 == 0
            &&& json_number(obj, "total"@) is Some ==> s.2 == json_number(obj, "total"@)->0
            &&& json_number(obj, "total"@) is None ==> s.2 == 0
        },
{
    if json_string(obj, "content"@) is Some {
        law_searches_find_the_first(json_string(obj, "content"@)->0, "images"@, 0);
    }
    lemma_number_small(obj, "used"@);
    lemma_number_small(obj, "total"@);
}

proof fn lemma_number_small(obj: Seq<char>, key: Seq<char>)
    ensures
        json_number(obj, key) matches Some(n) ==> n <= u64::MAX,
{
}

proof fn lemma_listed_all(objs: Seq<Seq<char>>, e: (Seq<char>, u64, u64))
    ensures
        listed_all(objs).contains(e) <==> exists|k: int|
            0 <= k < objs.len() && listed(#[trigger] objs[k]) == Some(e) && e.2 > 0,
    decreases objs.len(),
{
    if objs.len() > 0 {
        let init = objs.drop_last();
        let rest = listed_all(init);
        lemma_listed_all(init, e);
        if let Some(s) = listed(objs.last()) {
            lemma_in_push(rest, s);
        }
        if rest.contains(e) {
            let k = choose|k: int|
                0 <= k < init.len() && listed(#[trigger] init[k]) == Some(e) && e.2 > 0;
            assert(objs[k] == init[k]);
        }
        if exists|k: int|
            0 <= k < objs.len() && listed(#[trigger] objs[k]) == Some(e) && e.2 > 0 {
            let k = choose|k: int|
                0 <= k < objs.len() && listed(#[trigger] objs[k]) == Some(e) && e.2 > 0;
            if k < init.len() {
                assert(init[k] == objs[k]);
            } else {
                assert(listed_all(objs) == rest.push(e));
            }
        }
        if listed_all(objs).contains(e) && !rest.contains(e) {
            assert(listed(objs[objs.len() - 1]) == Some(e));
        }
    }
}

/// What is shown of a listing: one of its storages with a total, none of which
/// has a larger one. Only a listing without such a storage shows none.
pub proof fn law_listings_show_the_largest(objs: Seq<Seq<char>>, k: int)
    ensures
        0 <= k < objs.len() && listed(objs[k]) is Some && (listed(objs[k])->0).2 > 0 ==> {
            &&& largest(listed_all(objs)) is Some
            &&& (listed(objs[k])->0).2 <= (largest(listed_all(objs))->0).2
        },
        largest(listed_all(objs)) matches Some(best) ==> best.2 > 0 && exists|j: int|
            0 <= j < objs.len() && listed(#[trigger] objs[j]) == Some(best),
{
    let c = listed_all(objs);
    law_the_largest_storage_is_shown(c);
    if 0 <= k < objs.len() && listed(objs[k]) is Some && (listed(objs[k])->0).2 > 0 {
        let e = listed(objs[k])->0;
        lemma_listed_all(objs, e);
        assert(c.contains(e));
        let i = choose|i: int| 0 <= i < c.len() && c[i] == e;
        assert(c[i].2 <= (largest(c)->0).2);
    }
    if let Some(best) = largest(c) {
        assert(c.contains(best));
        lemma_listed_all(objs, best);
    }
}

/// Every brace that opens starts an object of the listing, which ends before
/// the next one: an object anywhere in it is among those that are looked at,
/// so that a storage of this node in it is never passed over.
pub proof fn law_listed_objects_are_seen(
    json: Seq<char>,
    a: Seq<char>,
    obj: Seq<char>,
    b: Seq<char>,
)
    requires
        json == a.push('{') + obj + b,
        !obj.contains('{'),
        b.len() > 0 ==> b[0] == '{',
    ensures
        pieces(json, '{').skip(1).contains(obj),
        listed(obj) is Some && (listed(obj)->0).2 > 0 ==> largest(
            listed_all(pieces(json, '{').skip(1)),
        ) is Some,
{
    let tail = obj + b;
    assert(json =~= a.push('{') + tail);
    law_cut_at_every_occurrence(json, a, tail, '{');
    assert(pieces(a, '{').len() >= 1);
    let all = pieces(json, '{');
    let n = pieces(a, '{').len() as int;
    if b.len() > 0 {
        let c = b.skip(1);
        assert(tail =~= obj.push('{') + c);
        law_cut_at_every_occurrence(tail, obj, c, '{');
        law_cut_at_every_occurrence(Seq::<char>::empty().push('{') + obj, Seq::<char>::empty(), obj, '{');
    } else {
        assert(tail =~= obj);
    }
    assert(pieces(tail, '{')[0] == obj);
    assert(all[n] == obj);
    let objs = all.skip(1);
    assert(objs[n - 1] == obj);
    law_listings_show_the_largest(objs, n - 1);
}

// ---- the configuration ----

/// The value of a key is that of the first property with that key.
pub proof fn law_first_property_counts(
    props: Seq<(Seq<char>, Seq<char>)>,
    key: Seq<char>,
    i: int,
)
    ensures
        0 <= i < props.len() && props[i].0 == key && (forall|j: int|
            0 <= j < i ==> (#[trigger] props[j]).0 != key) ==> lookup(props, key) == Some(props[i].1),
        (forall|j: int| 0 <= j < props.len() ==> (#[trigger] props[j]).0 != key) ==> lookup(
            props,
            key,
        ) is None,
    decreases props.len(),
{
    if props.len() > 0 {
        let t = props.drop_first();
        law_first_property_counts(t, key, i - 1);
        if 0 <= i < props.len() && props[i].0 == key && (forall|j: int|
            0 <= j < i ==> (#[trigger] props[j]).0 != key) {
            if i > 0 {
                assert(props[0].0 != key);
                assert(t[i - 1] == props[i]);
                assert forall|j: int| 0 <= j < i - 1 implies (#[trigger] t[j]).0 != key by {
                    assert(t[j] == props[j + 1]);
                }
            }
        }
        if forall|j: int| 0 <= j < props.len() ==> (#[trigger] props[j]).0 != key {
            assert(props[0].0 != key);
            assert forall|j: int| 0 <= j < t.len() implies (#[trigger] t[j]).0 != key by {
                assert(t[j] == props[j + 1]);
            }
        }
    }
}

proof fn lemma_trim_tail(s: Seq<char>, w: Seq<char>)
    requires
        forall|k: int| 0 <= k < w.len() ==> white_space(#[trigger] w[k]),
    ensures
        trim(s + w) == trim(s),
{
    let all = s + w;
    law_trimming_takes_white_space_only(s);
    let (i, j) = choose|i: int, j: int|
        {
            &&& 0 <= i <= j <= s.len()
            &&& trim(s) == #[trigger] s.subrange(i, j)
            &&& forall|k: int| 0 <= k < i ==> white_space(#[trigger] s[k])
            &&& forall|k: int| j <= k < s.len() ==> white_space(#[trigger] s[k])
            &&& i < j ==> !white_space(s[i]) && !white_space(s[j - 1])
        };
    assert forall|k: int| 0 <= k < i implies white_space(#[trigger] all[k]) by {
        assert(white_space(s[k]));
    }
    assert forall|k: int| j <= k < all.len() implies white_space(#[trigger] all[k]) by {
        if k < s.len() {
            assert(white_space(s[k]));
        } else {
            assert(white_space(w[k - s.len()]));
        }
    }
    if i < j {
        law_trimmed(all, i, j);
        assert(all.subrange(i, j) =~= s.subrange(i, j));
    } else {
        assert(trim(s).len() == 0);
        assert forall|k: int| 0 <= k < all.len() implies white_space(#[trigger] all[k]) by {}
        lemma_all_white(all);
        assert(trim(all) =~= trim(s));
    }
}

proof fn lemma_all_white(s: Seq<char>)
    requires
        forall|k: int| 0 <= k < s.len() ==> white_space(#[trigger] s[k]),
    ensures
        trim(s).len() == 0,
{
    law_trimming_takes_white_space_only(s);
}

/// The property on an indented line: the word that comes first, and what
/// stands behind the white character after it, trimmed.
pub proof fn law_properties_of_lines(
    line: Seq<char>,
    lead: Seq<char>,
    key: Seq<char>,
    w: char,
    value: Seq<char>,
)
    requires
        line == lead + key.push(w) + value,
        forall|k: int| 0 <= k < lead.len() ==> white_space(#[trigger] lead[k]),
        key.len() > 0,
        forall|k: int| 0 <= k < key.len() ==> !white_space(#[trigger] key[k]),
        white_space(w),
    ensures
        property_of(line) == (key, trim(value)),
{
    let n = key.len() as int;
    let m = lead.len() as int;
    let t = trim(line);
    law_trimming_takes_white_space_only(line);
    let (i, j) = choose|i: int, j: int|
        {
            &&& 0 <= i <= j <= line.len()
            &&& trim(line) == #[trigger] line.subrange(i, j)
            &&& forall|k: int| 0 <= k < i ==> white_space(#[trigger] line[k])
            &&& forall|k: int| j <= k < line.len() ==> white_space(#[trigger] line[k])
            &&& i < j ==> !white_space(line[i]) && !white_space(line[j - 1])
        };
    assert(line[m] == key[0]);
    assert(line[m + n - 1] == key[n - 1]);
    assert(i <= m) by {
        if m < i {
            assert(white_space(line[m]));
        }
    }
    assert(j >= m + n) by {
        if j <= m + n - 1 {
            assert(white_space(line[m + n - 1]));
        }
    }
    assert(i == m) by {
        if i < m {
            assert(line[i] == lead[i]);
        }
    }
    assert forall|k: int| 0 <= k < n implies Class::Ink.holds(#[trigger] t[k]) by {
        assert(t[k] == key[k]);
    }
    assert(line[m + n] == w);
    if n < t.len() {
        assert(t[n] == line[m + n]);
    }
    lemma_run(t, Class::Ink, n);
    assert(t.take(n) =~= key);
    if n < t.len() {
        let kept = t.skip(n + 1);
        let gone = line.subrange(j, line.len() as int);
        assert(value =~= kept + gone);
        assert forall|k: int| 0 <= k < gone.len() implies white_space(#[trigger] gone[k]) by {
            assert(white_space(line[j + k]));
        }
        lemma_trim_tail(kept, gone);
    } else {
        assert forall|k: int| 0 <= k < value.len() implies white_space(#[trigger] value[k]) by {
            assert(value[k] == line[m + n + 1 + k]);
            assert(white_space(line[m + n + 1 + k]));
        }
        lemma_all_white(value);
        assert(trim(value) =~= Seq::<char>::empty());
    }
}

/// What a line of the configuration does. A blank one does nothing. One that
/// is not indented opens a section, if it holds a colon: its type is what
/// stands before the first colon, its name what stands behind it. An indented
/// one adds a property to the section that was opened last, if there is one,
/// and leaves all others as they are.
pub proof fn law_lines_of_the_configuration(
    sections: Seq<Section>,
    line: Seq<char>,
    stype: Seq<char>,
    name: Seq<char>,
)
    ensures
        (forall|k: int| 0 <= k < line.len() ==> white_space(#[trigger] line[k])) ==> with_line(
            sections,
            line,
        ) == sections,
        line.len() > 0 && !white_space(line[0]) && line == stype.push(':') + name
            && !stype.contains(':') ==> with_line(sections, line) == sections.push(
            Section { stype: trim(stype), name: trim(name), props: Seq::empty() },
        ),
        line.len() > 0 && !white_space(line[0]) && !line.contains(':') ==> with_line(sections, line)
            == sections,
        line.len() > 0 && (line[0] == ' ' || line[0] == '\t') && trim(line).len() > 0 ==> {
            let after = with_line(sections, line);
            &&& after.len() == sections.len()
            &&& forall|k: int| 0 <= k < sections.len() - 1 ==> #[trigger] after[k] == sections[k]
            &&& sections.len() > 0 ==> after[sections.len() - 1] == (Section {
                stype: sections[sections.len() - 1].stype,
                name: sections[sections.len() - 1].name,
                props: sections[sections.len() - 1].props.push(property_of(line)),
            })
        },
{
    let c = Class::Except(':');
    if forall|k: int| 0 <= k < line.len() ==> white_space(#[trigger] line[k]) {
        lemma_all_white(line);
    }
    if line.len() > 0 && !white_space(line[0]) {
        law_trimming_takes_white_space_only(line);
        assert(trim(line).len() > 0) by {
            let (i, j) = choose|i: int, j: int|
                {
                    &&& 0 <= i <= j <= line.len()
                    &&& trim(line) == #[trigger] line.subrange(i, j)
                    &&& forall|k: int| 0 <= k < i ==> white_space(#[trigger] line[k])
                    &&& forall|k: int| j <= k < line.len() ==> white_space(#[trigger] line[k])
                    &&& i < j ==> !white_space(line[i]) && !white_space(line[j - 1])
                };
            if i == j {
                assert(white_space(line[0]));
            }
        }
        if line == stype.push(':') + name && !stype.contains(':') {
            assert forall|k: int| 0 <= k < stype.len() implies c.holds(#[trigger] line[k]) by {
                assert(stype.contains(stype[k]));
            }
            lemma_run(line, c, stype.len() as int);
            assert(line.take(stype.len() as int) =~= stype);
            assert(line.skip(stype.len() as int + 1) =~= name);
        }
        if !line.contains(':') {
            assert forall|k: int| 0 <= k < line.len() implies c.holds(#[trigger] line[k]) by {
                assert(line.contains(line[k]));
            }
            lemma_run(line, c, line.len() as int);
        }
    }
}

/// The sections of a configuration come about line by line.
pub proof fn law_configuration_line_by_line(ls: Seq<Seq<char>>, line: Seq<char>)
    ensures
        sections_of(ls.push(line)) == with_line(sections_of(ls), line),
        sections_of(Seq::empty()) == Seq::<Section>::empty(),
{
    assert(ls.push(line).drop_last() =~= ls);
}

/// Whether a section holds images of virtual machines on a storage that is
/// neither disabled nor shared: those flags count unless they are "0".
pub open spec fn keeps_images(s: Section) -> bool {
    &&& lookup(s.props, "content"@) is Some
    &&& exists|j: int| #[trigger] stands(lookup(s.props, "content"@)->0, "images"@, j)
    &&& lookup(s.props, "disable"@) is None || lookup(s.props, "disable"@) == Some("0"@)
    &&& lookup(s.props, "shared"@) is None || lookup(s.props, "shared"@) == Some("0"@)
}

/// Whom a section leads to: one of thin volumes to its pool, one of a ZFS pool
/// to its dataset, one of plain volumes to its group, each where the section
/// names it; no other section leads anywhere.
pub proof fn law_sections_lead_to_their_backend(s: Section)
    ensures
        ({
            let vg = lookup(s.props, "vgname"@);
            let thin = lookup(s.props, "thinpool"@);
            let pool = lookup(s.props, "pool"@);
            &&& keeps_images(s) && s.stype == "lvmthin"@ && vg is Some && thin is Some
                ==> query_of(s) == Some(
                (s.name, BackendView::ThinPool { vg: vg->0, pool: thin->0 }),
            )
            &&& keeps_images(s) && s.stype == "zfspool"@ && pool is Some ==> query_of(s) == Some(
                (s.name, BackendView::Dataset { pool: pool->0 }),
            )
            &&& keeps_images(s) && s.stype == "lvm"@ && vg is Some ==> query_of(s) == Some(
                (s.name, BackendView::VolumeGroup { vg: vg->0 }),
            )
            &&& query_of(s) is Some ==> keeps_images(s) && {
                ||| s.stype == "lvmthin"@ && vg is Some && thin is Some
                ||| s.stype == "zfspool"@ && pool is Some
                ||| s.stype == "lvm"@ && vg is Some
            }
        }),
{
    reveal_strlit("lvmthin");
    reveal_strlit("zfspool");
    reveal_strlit("lvm");
    assert("lvmthin"@[0] != "zfspool"@[0]);
    assert("lvmthin"@.len() != "lvm"@.len());
    assert("zfspool"@.len() != "lvm"@.len());
    if lookup(s.props, "content"@) is Some {
        law_searches_find_the_first(lookup(s.props, "content"@)->0, "images"@, 0);
    }
}

/// Every section that leads to a backend is asked about, in the order of the
/// file.
pub proof fn law_every_backend_is_asked(a: Seq<Section>, s: Section)
    ensures
        query_of(s) is Some ==> queries_of(a.push(s)) == queries_of(a).push(query_of(s)->0),
        query_of(s) is None ==> queries_of(a.push(s)) == queries_of(a),
        queries_of(Seq::empty()).len() == 0,
{
    assert(a.push(s).drop_last() =~= a);
}

/// A storage is a candidate exactly when its backend gave figures with a
/// total, and then it has its own name and these figures.
pub proof fn law_answers_are_candidates(
    queries: Seq<(Seq<char>, BackendView)>,
    figures: Seq<Option<(u64, u64)>>,
    e: (Seq<char>, u64, u64),
)
    requires
        figures.len() <= queries.len(),
    ensures
        answered(queries, figures).contains(e) <==> exists|k: int|
            0 <= k < figures.len() && #[trigger] figures[k] == Some((e.1, e.2)) && queries[k].0
                == e.0 && e.2 > 0,
    decreases figures.len(),
{
    if figures.len() > 0 {
        let init = figures.drop_last();
        let n = figures.len() - 1;
        let rest = answered(queries, init);
        law_answers_are_candidates(queries, init, e);
        if let Some(f) = figures.last() {
            lemma_in_push(rest, (queries[n].0, f.0, f.1));
        }
        if rest.contains(e) {
            let k = choose|k: int|
                0 <= k < init.len() && #[trigger] init[k] == Some((e.1, e.2)) && queries[k].0 == e.0
                    && e.2 > 0;
            assert(figures[k] == init[k]);
        }
        if answered(queries, figures).contains(e) && !rest.contains(e) {
            assert(figures[n] == Some((e.1, e.2)));
        }
        if exists|k: int|
            0 <= k < figures.len() && #[trigger] figures[k] == Some((e.1, e.2)) && queries[k].0
                == e.0 && e.2 > 0 {
            let k = choose|k: int|
                0 <= k < figures.len() && #[trigger] figures[k] == Some((e.1, e.2)) && queries[k].0
                    == e.0 && e.2 > 0;
            if k < n {
                assert(init[k] == figures[k]);
            }
        }
    }
}

/// Of the figures that came back, the storage with the largest total is shown;
/// none is shown only where no backend gave a total.
pub proof fn law_configured_storages_show_the_largest(
    queries: Seq<(Seq<char>, BackendView)>,
    figures: Seq<Option<(u64, u64)>>,
    k: int,
)
    requires
        figures.len() <= queries.len(),
    ensures
        0 <= k < figures.len() && figures[k] is Some && (figures[k]->0).1 > 0 ==> {
            &&& largest(answered(queries, figures)) is Some
            &&& (figures[k]->0).1 <= (largest(answered(queries, figures))->0).2
        },
        largest(answered(queries, figures)) matches Some(best) ==> exists|j: int|
            0 <= j < figures.len() && #[trigger] figures[j] == Some((best.1, best.2))
                && queries[j].0 == best.0,
{
    let c = answered(queries, figures);
    law_the_largest_storage_is_shown(c);
    if 0 <= k < figures.len() && figures[k] is Some && (figures[k]->0).1 > 0 {
        let e = (queries[k].0, (figures[k]->0).0, (figures[k]->0).1);
        law_answers_are_candidates(queries, figures, e);
        assert(c.contains(e));
        let i = choose|i: int| 0 <= i < c.len() && c[i] == e;
        assert(c[i].2 <= (largest(c)->0).2);
    }
    if let Some(best) = largest(c) {
        assert(c.contains(best));
        law_answers_are_candidates(queries, figures, best);
    }
}

/// A backend's figures are the first two words that it prints, read as
/// numbers.
pub proof fn law_figures_are_the_first_two_words(out: Seq<char>, a: Seq<char>, b: Seq<char>)
    requires
        words(out).len() >= 2,
        words(out)[0] == a,
        words(out)[1] == b,
        a.len() > 0,
        b.len() > 0,
        forall|k: int| 0 <= k < a.len() ==> '0' <= #[trigger] a[k] <= '9',
        forall|k: int| 0 <= k < b.len() ==> '0' <= #[trigger] b[k] <= '9',
        read(a) <= u64::MAX,
        read(b) <= u64::MAX,
    ensures
        two_words(out) == Some((a, b)),
        two_numbers(out) == Some((read(a) as nat, read(b) as nat)),
{
    law_digits_are_numbers(a, u64::MAX as nat, 0);
    law_digits_are_numbers(b, u64::MAX as nat, 0);
}

} // verus!
