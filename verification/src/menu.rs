//! The settings menu's rows: reading their actions, capturing what they drive, and
//! relabelling or graying them.

use crate::float_bits::{FloatBits, Vec3, Vec4, zero};
use crate::keymap::{Bindable, setting_text};
use crate::tables::{AssetId, copied, copied_set, holds};
use crate::text::{after_prefix, before_suffix, ends_with, same_text, starts_with};
use std::collections::{HashMap, HashSet};
use vstd::prelude::*;

verus! {

/// A region of the menu that takes the pointer.
#[derive(Debug)]
pub struct HitRegion {
    pub action: String,
    /// The label that shows the row's value.
    pub label: Option<AssetId>,
    /// The sprite that a drag moves.
    pub drag_handle: Option<AssetId>,
    pub x: FloatBits,
    pub width: FloatBits,
    pub disabled: bool,
}

/// A line of text.
#[derive(Debug)]
pub struct TextLabel {
    pub asset_id: AssetId,
    pub content: String,
    pub color: Vec3,
    pub visible: bool,
    /// The view that owns the label.
    pub view: Option<AssetId>,
}

/// A rectangle of the user interface.
#[derive(Debug, Clone, Copy)]
pub struct Sprite {
    pub asset_id: AssetId,
    pub x: FloatBits,
    pub width: FloatBits,
    pub tint: Vec4,
    pub visible: bool,
    pub follow_cursor: bool,
    /// The view that owns the sprite.
    pub view: Option<AssetId>,
}

/// A scrolling panel: its content band, and the elements of each of its rows.
#[derive(Debug)]
pub struct ScrollPanel {
    pub band: Vec4,
    pub rows: Vec<Vec<AssetId>>,
}

/// An action names a setting this way: a prefix, a non-empty key and a suffix that
/// do not overlap.
pub open spec fn keyed(action: Seq<char>, suffix: Seq<char>) -> Option<Seq<char>> {
    if starts_with(action, "setting:"@) && ends_with(
        action.subrange("setting:"@.len() as int, action.len() as int),
        suffix,
    ) && action.len() > "setting:"@.len() + suffix.len() {
        Some(action.subrange("setting:"@.len() as int, action.len() - suffix.len()))
    } else {
        None
    }
}

fn key_of<'a>(action: &'a str, suffix: &str) -> (r: Option<&'a str>)
    ensures
        match r {
            Some(k) => keyed(action@, suffix@) == Some(k@),
            None => keyed(action@, suffix@) is None,
        },
{
    match after_prefix(action, "setting:") {
        None => None,
        Some(rest) => match before_suffix(rest, suffix) {
            None => None,
            Some(key) => {
                if key.unicode_len() == 0 {
                    return None;
                }
                assert(key@ =~= action@.subrange(
                    "setting:"@.len() as int,
                    action@.len() - suffix@.len(),
                ));
                Some(key)
            },
        },
    }
}

/// The key of a slider's drag action.
pub fn slider_key_of(action: &str) -> (r: Option<&str>)
    ensures
        match r {
            Some(k) => keyed(action@, ":drag"@) == Some(k@),
            None => keyed(action@, ":drag"@) is None,
        },
{
    key_of(action, ":drag")
}

/// The key of a rebind action.
pub fn rebind_key_of(action: &str) -> (r: Option<&str>)
    ensures
        match r {
            Some(k) => keyed(action@, ":rebind"@) == Some(k@),
            None => keyed(action@, ":rebind"@) is None,
        },
{
    key_of(action, ":rebind")
}

/// The key of a cycle row's forward action.
pub fn cycle_next_key_of(action: &str) -> (r: Option<&str>)
    ensures
        match r {
            Some(k) => keyed(action@, ":next"@) == Some(k@),
            None => keyed(action@, ":next"@) is None,
        },
{
    key_of(action, ":next")
}

/// What stands before the first colon; everything where there is none.
pub open spec fn head(s: Seq<char>) -> Seq<char>
    decreases s.len(),
{
    if s.len() == 0 || s[0] == ':' {
        Seq::empty()
    } else {
        seq![s[0]] + head(s.subrange(1, s.len() as int))
    }
}

/// The setting that an action is about, if any.
pub open spec fn setting_of(action: Seq<char>) -> Option<Seq<char>> {
    if starts_with(action, "setting:"@) {
        Some(head(action.subrange("setting:"@.len() as int, action.len() as int)))
    } else {
        None
    }
}

proof fn lemma_head(s: Seq<char>, n: int)
    requires
        0 <= n <= s.len(),
        forall|i: int| 0 <= i < n ==> s[i] != ':',
        n < s.len() ==> s[n] == ':',
    ensures
        head(s) == s.subrange(0, n),
    decreases s.len(),
{
    if n == 0 {
        assert(head(s) =~= s.subrange(0, 0));
    } else {
        let rest = s.subrange(1, s.len() as int);
        lemma_head(rest, n - 1);
        assert(head(s) =~= s.subrange(0, n));
    }
}

pub fn setting_key<'a>(action: &'a str) -> (r: Option<&'a str>)
    ensures
        match r {
            Some(k) => setting_of(action@) == Some(k@),
            None => setting_of(action@) is None,
        },
{
    match after_prefix(action, "setting:") {
        None => None,
        Some(rest) => {
            let n: usize = rest.unicode_len();
            let mut i: usize = 0;
            while i < n && rest.get_char(i) != ':'
                invariant
                    n == rest@.len(),
                    i <= n,
                    forall|j: int| 0 <= j < i ==> rest@[j] != ':',
                decreases n - i,
            {
                i = i + 1;
            }
            proof {
                lemma_head(rest@, i as int);
            }
            Some(rest.substring_char(0, i))
        },
    }
}

/// The texts of a list of labels.
pub open spec fn texts_of(labels: Seq<TextLabel>) -> Seq<Seq<char>> {
    Seq::new(labels.len(), |i: int| labels[i].content@)
}

/// The ids of a list of labels.
pub open spec fn ids_of(labels: Seq<TextLabel>) -> Seq<AssetId> {
    Seq::new(labels.len(), |i: int| labels[i].asset_id)
}

/// Nothing but texts differs.
pub open spec fn only_texts_differ(was: Seq<TextLabel>, now: Seq<TextLabel>) -> bool {
    &&& now.len() == was.len()
    &&& forall|i: int|
        0 <= i < was.len() ==> #[trigger] now[i] == (TextLabel { content: now[i].content, ..was[i] })
}

/// The texts with that of the first label of an id replaced.
pub open spec fn written(
    ids: Seq<AssetId>,
    texts: Seq<Seq<char>>,
    id: AssetId,
    text: Seq<char>,
) -> Seq<Seq<char>> {
    if ids.contains(id) {
        texts.update(ids.index_of_first(id)->0, text)
    } else {
        texts
    }
}

/// Overwrite the text of the first label with an id, if there is one.
pub fn set_label_content(labels: &mut Vec<TextLabel>, id: AssetId, text: &str)
    ensures
        only_texts_differ(old(labels)@, final(labels)@),
        texts_of(final(labels)@) == written(
            ids_of(old(labels)@),
            texts_of(old(labels)@),
            id,
            text@,
        ),
{
    let ghost was = labels@;
    let ghost ids = ids_of(was);
    let mut i: usize = 0;
    while i < labels.len()
        invariant
            i <= labels@.len(),
            labels@ == was,
            was == old(labels)@,
            ids == ids_of(was),
            forall|j: int| 0 <= j < i ==> (#[trigger] was[j]).asset_id != id,
        decreases labels@.len() - i,
    {
        if labels[i].asset_id == id {
            labels[i].content = text.to_string();
            proof {
                assert(ids[i as int] == id);
                ids.index_of_first_ensures(id);
                let f = ids.index_of_first(id)->0;
                assert(f == i) by {
                    if f < i {
                        assert(was[f].asset_id != id);
                    }
                }
                assert(texts_of(labels@) =~= written(ids, texts_of(was), id, text@));
            }
            return ;
        }
        i = i + 1;
    }
    proof {
        assert(!ids.contains(id)) by {
            if ids.contains(id) {
                let j = choose|j: int| 0 <= j < ids.len() && ids[j] == id;
                assert(was[j].asset_id == id);
            }
        }
        assert(texts_of(labels@) =~= texts_of(was));
    }
}

/// The sprites with the left edge of the first one of an id moved.
pub open spec fn is_moved(
    was: Seq<Sprite>,
    now: Seq<Sprite>,
    id: AssetId,
    x: FloatBits,
) -> bool {
    &&& now.len() == was.len()
    &&& forall|i: int|
        0 <= i < was.len() ==> #[trigger] now[i] == if was[i].asset_id == id && forall|j: int|
            0 <= j < i ==> (#[trigger] was[j]).asset_id != id {
            Sprite { x, ..was[i] }
        } else {
            was[i]
        }
}

/// Move the first sprite with an id to `x`, if there is one.
pub fn set_sprite_x(sprites: &mut Vec<Sprite>, id: AssetId, x: FloatBits)
    ensures
        is_moved(old(sprites)@, final(sprites)@, id, x),
{
    let ghost was = sprites@;
    let mut i: usize = 0;
    while i < sprites.len()
        invariant
            i <= sprites@.len(),
            sprites@ == was,
            was == old(sprites)@,
            forall|j: int| 0 <= j < i ==> (#[trigger] was[j]).asset_id != id,
        decreases sprites@.len() - i,
    {
        if sprites[i].asset_id == id {
            let s: Sprite = sprites[i];
            sprites.set(i, Sprite { x, ..s });
            assert(is_moved(was, sprites@, id, x)) by {
                assert forall|k: int| 0 <= k < was.len() implies #[trigger] sprites@[k] == if was[k].asset_id
                    == id && forall|j: int| 0 <= j < k ==> (#[trigger] was[j]).asset_id != id {
                    Sprite { x, ..was[k] }
                } else {
                    was[k]
                } by {
                    if k > i {
                        assert(was[i as int].asset_id == id);
                    }
                }
            }
            return ;
        }
        i = i + 1;
    }
}

/// A row of the menu: the setting it is about and the label of its value.
pub open spec fn row_of(r: HitRegion) -> Option<(Seq<char>, AssetId)> {
    match (setting_of(r.action@), r.label) {
        (Some(key), Some(label)) => Some((key, label)),
        _ => None,
    }
}

/// The text shown for a setting, in a table of settings and texts.
pub open spec fn shown(table: Seq<(String, String)>, key: Seq<char>, k: nat) -> Option<Seq<char>>
    decreases k,
{
    if k == 0 {
        None
    } else {
        match shown(table, key, (k - 1) as nat) {
            Some(t) => Some(t),
            None => if table[k - 1].0@ == key {
                Some(table[k - 1].1@)
            } else {
                None
            },
        }
    }
}

/// The texts after the first `k` regions' rows were synced.
pub open spec fn synced(
    regions: Seq<HitRegion>,
    table: Seq<(String, String)>,
    ids: Seq<AssetId>,
    texts: Seq<Seq<char>>,
    k: nat,
) -> Seq<Seq<char>>
    decreases k,
{
    if k == 0 {
        texts
    } else {
        let before = synced(regions, table, ids, texts, (k - 1) as nat);
        match row_of(regions[k - 1]) {
            Some((key, label)) => match shown(table, key, table.len()) {
                Some(text) => written(ids, before, label, text),
                None => before,
            },
            None => before,
        }
    }
}

fn find_text<'a>(table: &'a Vec<(String, String)>, key: &str) -> (r: Option<&'a String>)
    ensures
        match r {
            Some(t) => shown(table@, key@, table@.len()) == Some(t@),
            None => shown(table@, key@, table@.len()) is None,
        },
{
    let mut i: usize = 0;
    while i < table.len()
        invariant
            i <= table@.len(),
            shown(table@, key@, i as nat) is None,
        decreases table@.len() - i,
    {
        if same_text(table[i].0.as_str(), key) {
            proof {
                lemma_shown_stays(table@, key@, (i + 1) as nat, table@.len());
            }
            return Some(&table[i].1);
        }
        i = i + 1;
    }
    None
}

proof fn lemma_shown_stays(table: Seq<(String, String)>, key: Seq<char>, j: nat, k: nat)
    requires
        j <= k,
        shown(table, key, j) is Some,
    ensures
        shown(table, key, k) == shown(table, key, j),
    decreases k - j,
{
    if j < k {
        lemma_shown_stays(table, key, j, (k - 1) as nat);
    }
}

/// Show the live value of every settings row. `table` gives the text of each setting
/// that has one.
pub fn sync_setting_value_labels(
    regions: &Vec<HitRegion>,
    labels: &mut Vec<TextLabel>,
    table: &Vec<(String, String)>,
)
    ensures
        only_texts_differ(old(labels)@, final(labels)@),
        texts_of(final(labels)@) == synced(
            regions@,
            table@,
            ids_of(old(labels)@),
            texts_of(old(labels)@),
            regions@.len(),
        ),
{
    let ghost was = labels@;
    let ghost ids = ids_of(was);
    let mut k: usize = 0;
    while k < regions.len()
        invariant
            k <= regions@.len(),
            ids == ids_of(was),
            only_texts_differ(was, labels@),
            texts_of(labels@) == synced(regions@, table@, ids, texts_of(was), k as nat),
        decreases regions@.len() - k,
    {
        let r: &HitRegion = &regions[k];
        match (setting_key(r.action.as_str()), r.label) {
            (Some(key), Some(label)) => match find_text(table, key) {
                Some(text) => {
                    let ghost before = labels@;
                    assert(ids_of(before) =~= ids) by {
                        assert forall|i: int| 0 <= i < ids.len() implies ids_of(before)[i]
                            == ids[i] by {
                            assert(before[i] == (TextLabel { content: before[i].content, ..was[i] }));
                        }
                    }
                    set_label_content(labels, label, text.as_str());
                    assert(only_texts_differ(was, labels@)) by {
                        assert forall|i: int| 0 <= i < was.len() implies #[trigger] labels@[i] == (
                        TextLabel { content: labels@[i].content, ..was[i] }) by {
                            assert(before[i] == (TextLabel { content: before[i].content, ..was[i] }));
                        }
                    }
                },
                None => {},
            },
            _ => {},
        }
        k = k + 1;
    }
}

/// A row holds an id of a set.
pub open spec fn meets(row: Seq<AssetId>, set: Set<u32>) -> bool {
    exists|i: int| 0 <= i < row.len() && set.contains(#[trigger] row[i])
}

fn row_meets(row: &Vec<AssetId>, set: &HashSet<u32>) -> (r: bool)
    ensures
        r == meets(row@, set@),
{
    let mut i: usize = 0;
    while i < row.len()
        invariant
            i <= row@.len(),
            forall|j: int| 0 <= j < i ==> !set@.contains(#[trigger] row@[j]),
        decreases row@.len() - i,
    {
        if holds(set, row[i]) {
            return true;
        }
        i = i + 1;
    }
    false
}

/// An element is grayed: it is a gated label, or stands in a row with one.
pub open spec fn grayed(gated: Set<u32>, rows: Seq<Seq<AssetId>>, k: nat, id: u32) -> bool {
    gated.contains(id) || exists|i: int|
        0 <= i < k && meets(#[trigger] rows[i], gated) && rows[i].contains(id)
}

/// The elements of each row.
pub open spec fn row_views(rows: Seq<Vec<AssetId>>) -> Seq<Seq<AssetId>> {
    Seq::new(rows.len(), |i: int| rows[i]@)
}

/// Every element to gray for a set of gated value labels: the labels themselves, and
/// everything in a row that holds one.
pub fn expand_dim_set(gated: &HashSet<u32>, rows: &Vec<Vec<AssetId>>) -> (r: HashSet<u32>)
    ensures
        forall|id: u32| #[trigger] r@.contains(id) <==> grayed(
            gated@,
            row_views(rows@),
            rows@.len(),
            id,
        ),
{
    let ghost views = row_views(rows@);
    let mut dim: HashSet<u32> = copied_set(gated);
    let mut k: usize = 0;
    while k < rows.len()
        invariant
            k <= rows@.len(),
            views == row_views(rows@),
            forall|id: u32| #[trigger] dim@.contains(id) <==> grayed(gated@, views, k as nat, id),
        decreases rows@.len() - k,
    {
        let ghost was = dim@;
        if row_meets(&rows[k], gated) {
            insert_all(&mut dim, &rows[k]);
        }
        proof {
            assert forall|id: u32| #[trigger] dim@.contains(id) <==> grayed(
                gated@,
                views,
                (k + 1) as nat,
                id,
            ) by {
                assert(was.contains(id) <==> grayed(gated@, views, k as nat, id));
                if grayed(gated@, views, k as nat, id) && !gated@.contains(id) {
                    let i = choose|i: int|
                        0 <= i < k && meets(#[trigger] views[i], gated@) && views[i].contains(id);
                    assert(meets(views[i], gated@));
                }
                if grayed(gated@, views, (k + 1) as nat, id) && !gated@.contains(id) {
                    let i = choose|i: int|
                        0 <= i < k + 1 && meets(#[trigger] views[i], gated@)
                            && views[i].contains(id);
                    if i < k {
                        assert(grayed(gated@, views, k as nat, id));
                    }
                }
                if dim@.contains(id) && !was.contains(id) {
                    assert(meets(views[k as int], gated@) && views[k as int].contains(id));
                }
            }
        }
        k = k + 1;
    }
    dim
}

fn insert_all(set: &mut HashSet<u32>, row: &Vec<AssetId>)
    ensures
        forall|id: u32| #[trigger]
            final(set)@.contains(id) <==> old(set)@.contains(id) || row@.contains(id),
{
    let ghost was = set@;
    let mut i: usize = 0;
    while i < row.len()
        invariant
            i <= row@.len(),
            forall|id: u32| #[trigger]
                set@.contains(id) <==> was.contains(id) || row@.subrange(0, i as int).contains(id),
        decreases row@.len() - i,
    {
        broadcast use vstd::std_specs::hash::group_hash_axioms;

        let ghost before = set@;
        set.insert(row[i]);
        proof {
            let head = row@.subrange(0, i as int);
            let next = row@.subrange(0, i + 1);
            assert(next[i as int] == row@[i as int]);
            assert forall|id: u32| #[trigger] set@.contains(id) <==> was.contains(id)
                || next.contains(id) by {
                assert(before.contains(id) <==> was.contains(id) || head.contains(id));
                if head.contains(id) {
                    let j = choose|j: int| 0 <= j < head.len() && head[j] == id;
                    assert(next[j] == id);
                }
                if next.contains(id) && id != row@[i as int] {
                    let j = choose|j: int| 0 <= j < next.len() && next[j] == id;
                    assert(head[j] == id);
                }
            }
        }
        i = i + 1;
    }
    assert(row@.subrange(0, i as int) =~= row@);
}

/// A setting stands in a list of unavailable ones.
pub open spec fn listed(keys: Seq<String>, key: Seq<char>) -> bool {
    exists|i: int| 0 <= i < keys.len() && (#[trigger] keys[i])@ == key
}

fn is_listed(keys: &Vec<String>, key: &str) -> (r: bool)
    ensures
        r == listed(keys@, key@),
{
    let mut i: usize = 0;
    while i < keys.len()
        invariant
            i <= keys@.len(),
            forall|j: int| 0 <= j < i ==> (#[trigger] keys@[j])@ != key@,
        decreases keys@.len() - i,
    {
        if same_text(keys[i].as_str(), key) {
            assert(keys@[i as int]@ == key@);
            return true;
        }
        i = i + 1;
    }
    false
}

/// A region's setting is unavailable.
pub open spec fn region_gated(r: HitRegion, unavailable: Seq<String>) -> bool {
    setting_of(r.action@) matches Some(key) && listed(unavailable, key)
}

/// A label is the value label of a region whose setting is unavailable.
pub open spec fn label_gated(
    regions: Seq<HitRegion>,
    unavailable: Seq<String>,
    k: nat,
    id: u32,
) -> bool {
    exists|i: int|
        0 <= i < k && region_gated(#[trigger] regions[i], unavailable) && regions[i].label == Some(
            id,
        )
}

/// Disable the regions whose setting is unavailable, and collect the labels of their
/// values.
pub fn gate_regions(regions: &mut Vec<HitRegion>, unavailable: &Vec<String>) -> (r: HashSet<u32>)
    ensures
        final(regions)@.len() == old(regions)@.len(),
        forall|i: int|
            0 <= i < old(regions)@.len() ==> #[trigger] final(regions)@[i] == if region_gated(
                old(regions)@[i],
                unavailable@,
            ) {
                HitRegion { disabled: true, ..old(regions)@[i] }
            } else {
                old(regions)@[i]
            },
        forall|id: u32| #[trigger]
            r@.contains(id) <==> label_gated(
                old(regions)@,
                unavailable@,
                old(regions)@.len(),
                id,
            ),
{
    broadcast use vstd::std_specs::hash::group_hash_axioms;

    let ghost was = regions@;
    let mut gated: HashSet<u32> = HashSet::new();
    let mut k: usize = 0;
    while k < regions.len()
        invariant
            k <= was.len(),
            regions@.len() == was.len(),
            forall|i: int|
                0 <= i < k ==> #[trigger] regions@[i] == if region_gated(was[i], unavailable@) {
                    HitRegion { disabled: true, ..was[i] }
                } else {
                    was[i]
                },
            forall|i: int| k <= i < was.len() ==> #[trigger] regions@[i] == was[i],
            forall|id: u32| #[trigger]
                gated@.contains(id) <==> label_gated(was, unavailable@, k as nat, id),
        decreases was.len() - k,
    {
        broadcast use vstd::std_specs::hash::group_hash_axioms;

        let ghost before = gated@;
        let mut hit: bool = false;
        match setting_key(regions[k].action.as_str()) {
            Some(key) => {
                hit = is_listed(unavailable, key);
            },
            None => {},
        }
        assert(hit == region_gated(was[k as int], unavailable@));
        if hit {
            regions[k].disabled = true;
            match regions[k].label {
                Some(label) => {
                    gated.insert(label);
                },
                None => {},
            }
        }
        proof {
            assert forall|id: u32| #[trigger] gated@.contains(id) <==> label_gated(
                was,
                unavailable@,
                (k + 1) as nat,
                id,
            ) by {
                assert(before.contains(id) <==> label_gated(was, unavailable@, k as nat, id));
                if before.contains(id) {
                    let i = choose|i: int|
                        0 <= i < k && region_gated(#[trigger] was[i], unavailable@)
                            && was[i].label == Some(id);
                    assert(region_gated(was[i], unavailable@));
                }
                if label_gated(was, unavailable@, (k + 1) as nat, id) {
                    let i = choose|i: int|
                        0 <= i < k + 1 && region_gated(#[trigger] was[i], unavailable@)
                            && was[i].label == Some(id);
                    if i < k {
                        assert(label_gated(was, unavailable@, k as nat, id));
                    }
                }
                if gated@.contains(id) && !before.contains(id) {
                    assert(region_gated(was[k as int], unavailable@) && was[k as int].label
                        == Some(id));
                }
            }
        }
        k = k + 1;
    }
    gated
}

/// Recolour the labels of a set.
pub fn gray_labels(labels: &mut Vec<TextLabel>, dim: &HashSet<u32>, color: Vec3)
    ensures
        final(labels)@.len() == old(labels)@.len(),
        forall|i: int|
            0 <= i < old(labels)@.len() ==> #[trigger] final(labels)@[i] == if dim@.contains(
                old(labels)@[i].asset_id,
            ) {
                TextLabel { color, ..old(labels)@[i] }
            } else {
                old(labels)@[i]
            },
{
    let ghost was = labels@;
    let mut k: usize = 0;
    while k < labels.len()
        invariant
            k <= was.len(),
            labels@.len() == was.len(),
            forall|i: int|
                0 <= i < k ==> #[trigger] labels@[i] == if dim@.contains(was[i].asset_id) {
                    TextLabel { color, ..was[i] }
                } else {
                    was[i]
                },
            forall|i: int| k <= i < was.len() ==> #[trigger] labels@[i] == was[i],
        decreases was.len() - k,
    {
        if holds(dim, labels[k].asset_id) {
            labels[k].color = color;
        }
        k = k + 1;
    }
}

/// The rows of all panels, one after the other.
pub open spec fn panel_rows(panels: Seq<ScrollPanel>, k: nat) -> Seq<Seq<AssetId>>
    decreases k,
{
    if k == 0 {
        Seq::empty()
    } else {
        panel_rows(panels, (k - 1) as nat) + Seq::new(
            panels[k - 1].rows@.len(),
            |i: int| panels[k - 1].rows@[i]@,
        )
    }
}

fn all_rows(panels: &Vec<ScrollPanel>) -> (r: Vec<Vec<AssetId>>)
    ensures
        row_views(r@) == panel_rows(panels@, panels@.len()),
{
    let mut out: Vec<Vec<AssetId>> = Vec::new();
    let mut p: usize = 0;
    assert(row_views(out@) =~= panel_rows(panels@, 0));
    while p < panels.len()
        invariant
            p <= panels@.len(),
            row_views(out@) == panel_rows(panels@, p as nat),
        decreases panels@.len() - p,
    {
        let panel: &ScrollPanel = &panels[p];
        let ghost was = row_views(out@);
        let ghost own = Seq::new(panel.rows@.len(), |i: int| panel.rows@[i]@);
        let mut j: usize = 0;
        assert(row_views(out@) =~= was + own.subrange(0, 0));
        while j < panel.rows.len()
            invariant
                j <= panel.rows@.len(),
                own == Seq::new(panel.rows@.len(), |i: int| panel.rows@[i]@),
                row_views(out@) == was + own.subrange(0, j as int),
            decreases panel.rows@.len() - j,
        {
            let ghost before = out@;
            out.push(copied(&panel.rows[j]));
            j = j + 1;
            assert(row_views(out@) =~= row_views(before).push(own[j - 1]));
            assert(row_views(out@) =~= was + own.subrange(0, j as int));
        }
        assert(own.subrange(0, j as int) =~= own);
        p = p + 1;
    }
    out
}

/// The value labels of the regions whose setting is unavailable.
pub open spec fn gated_labels(regions: Seq<HitRegion>, unavailable: Seq<String>) -> Set<u32> {
    Set::new(|id: u32| label_gated(regions, unavailable, regions.len(), id))
}

/// Disable the regions of every unavailable setting, and gray their rows: a row as a
/// whole where a panel lists it, and its value label otherwise.
pub fn apply_capability_gating(
    regions: &mut Vec<HitRegion>,
    labels: &mut Vec<TextLabel>,
    panels: &Vec<ScrollPanel>,
    unavailable: &Vec<String>,
    color: Vec3,
)
    ensures
        final(regions)@.len() == old(regions)@.len(),
        forall|i: int|
            0 <= i < old(regions)@.len() ==> #[trigger] final(regions)@[i] == if region_gated(
                old(regions)@[i],
                unavailable@,
            ) {
                HitRegion { disabled: true, ..old(regions)@[i] }
            } else {
                old(regions)@[i]
            },
        final(labels)@.len() == old(labels)@.len(),
        forall|i: int|
            0 <= i < old(labels)@.len() ==> #[trigger] final(labels)@[i] == if grayed(
                gated_labels(old(regions)@, unavailable@),
                panel_rows(panels@, panels@.len()),
                panel_rows(panels@, panels@.len()).len(),
                old(labels)@[i].asset_id,
            ) {
                TextLabel { color, ..old(labels)@[i] }
            } else {
                old(labels)@[i]
            },
{
    let ghost was = regions@;
    let gated: HashSet<u32> = gate_regions(regions, unavailable);
    let rows: Vec<Vec<AssetId>> = all_rows(panels);
    let dim: HashSet<u32> = expand_dim_set(&gated, &rows);
    assert(gated@ =~= gated_labels(was, unavailable@));
    gray_labels(labels, &dim, color);
}

/// One slider row: the setting it drives, its track, and the handle and label it
/// moves.
#[derive(Debug)]
pub struct SliderViz {
    pub key: String,
    pub track_x: FloatBits,
    pub track_w: FloatBits,
    pub handle_w: FloatBits,
    pub handle_id: AssetId,
    pub value_id: AssetId,
}

/// The width of the last of the first `k` sprites with an id; zero where there is
/// none.
pub open spec fn width_of(sprites: Seq<Sprite>, id: AssetId, k: nat) -> FloatBits
    decreases k,
{
    if k == 0 {
        zero()
    } else if sprites[k - 1].asset_id == id {
        sprites[k - 1].width
    } else {
        width_of(sprites, id, (k - 1) as nat)
    }
}

/// A region is a slider row: a drag action with a handle and a label.
pub open spec fn is_slider_row(r: HitRegion) -> bool {
    keyed(r.action@, ":drag"@) is Some && r.drag_handle is Some && r.label is Some
}

/// The slider rows among the first `k` regions.
pub open spec fn slider_rows(regions: Seq<HitRegion>, k: nat) -> Seq<int>
    decreases k,
{
    if k == 0 {
        Seq::empty()
    } else {
        let before = slider_rows(regions, (k - 1) as nat);
        if is_slider_row(regions[k - 1]) {
            before.push(k - 1)
        } else {
            before
        }
    }
}

/// Whether this is what is captured of a slider row.
pub open spec fn is_slider(r: HitRegion, sprites: Seq<Sprite>, s: SliderViz) -> bool {
    &&& keyed(r.action@, ":drag"@) == Some(s.key@)
    &&& s.track_x == r.x
    &&& s.track_w == r.width
    &&& r.drag_handle == Some(s.handle_id)
    &&& r.label == Some(s.value_id)
    &&& s.handle_w == width_of(sprites, s.handle_id, sprites.len())
}

fn last_width(sprites: &Vec<Sprite>, id: AssetId) -> (r: FloatBits)
    ensures
        r == width_of(sprites@, id, sprites@.len()),
{
    let mut w: FloatBits = FloatBits::new(0);
    let mut i: usize = 0;
    while i < sprites.len()
        invariant
            i <= sprites@.len(),
            w == width_of(sprites@, id, i as nat),
        decreases sprites@.len() - i,
    {
        if sprites[i].asset_id == id {
            w = sprites[i].width;
        }
        i = i + 1;
    }
    w
}

/// Capture the slider rows.
pub fn init_sliders(regions: &Vec<HitRegion>, sprites: &Vec<Sprite>) -> (r: Vec<SliderViz>)
    ensures
        ({
            let rows = slider_rows(regions@, regions@.len());
            &&& r@.len() == rows.len()
            &&& forall|i: int|
                0 <= i < rows.len() ==> is_slider(regions@[rows[i]], sprites@, #[trigger] r@[i])
        }),
{
    let mut out: Vec<SliderViz> = Vec::new();
    let mut k: usize = 0;
    while k < regions.len()
        invariant
            k <= regions@.len(),
            out@.len() == slider_rows(regions@, k as nat).len(),
            forall|i: int|
                0 <= i < out@.len() ==> is_slider(
                    regions@[slider_rows(regions@, k as nat)[i]],
                    sprites@,
                    #[trigger] out@[i],
                ),
        decreases regions@.len() - k,
    {
        let r: &HitRegion = &regions[k];
        let ghost was = out@;
        match (slider_key_of(r.action.as_str()), r.drag_handle, r.label) {
            (Some(key), Some(handle_id), Some(value_id)) => {
                out.push(
                    SliderViz {
                        key: key.to_string(),
                        track_x: r.x,
                        track_w: r.width,
                        handle_w: last_width(sprites, handle_id),
                        handle_id,
                        value_id,
                    },
                );
            },
            _ => {},
        }
        proof {
            let rows = slider_rows(regions@, (k + 1) as nat);
            assert forall|i: int| 0 <= i < out@.len() implies is_slider(
                regions@[rows[i]],
                sprites@,
                #[trigger] out@[i],
            ) by {
                if i < was.len() {
                    assert(out@[i] == was[i]);
                }
            }
        }
        k = k + 1;
    }
    out
}

/// The first slider row of a setting.
pub fn slider_of(sliders: &Vec<SliderViz>, key: &str) -> (r: Option<usize>)
    ensures
        match r {
            Some(i) => i < sliders@.len() && sliders@[i as int].key@ == key@ && forall|j: int|
                0 <= j < i ==> (#[trigger] sliders@[j]).key@ != key@,
            None => forall|j: int| 0 <= j < sliders@.len() ==> (#[trigger] sliders@[j]).key@ != key@,
        },
{
    let mut i: usize = 0;
    while i < sliders.len()
        invariant
            i <= sliders@.len(),
            forall|j: int| 0 <= j < i ==> (#[trigger] sliders@[j]).key@ != key@,
        decreases sliders@.len() - i,
    {
        if same_text(sliders[i].key.as_str(), key) {
            return Some(i);
        }
        i = i + 1;
    }
    None
}

/// One rebind row: the action it binds and the label of its key.
#[derive(Debug, Clone, Copy, PartialEq, Eq, Structural)]
pub struct RebindViz {
    pub action: Bindable,
    pub value_id: AssetId,
}

/// The rebind rows among the first `k` regions: those of a known action with a label.
pub open spec fn is_rebind_row(r: HitRegion, v: RebindViz) -> bool {
    keyed(r.action@, ":rebind"@) == Some(setting_text(v.action)) && r.label == Some(v.value_id)
}

/// A region is a rebind row.
pub open spec fn rebinds(r: HitRegion) -> bool {
    exists|v: RebindViz| is_rebind_row(r, v)
}

/// The rebind rows among the first `k` regions.
pub open spec fn rebind_rows(regions: Seq<HitRegion>, k: nat) -> Seq<int>
    decreases k,
{
    if k == 0 {
        Seq::empty()
    } else {
        let before = rebind_rows(regions, (k - 1) as nat);
        if rebinds(regions[k - 1]) {
            before.push(k - 1)
        } else {
            before
        }
    }
}

/// Capture the rebind rows.
pub fn init_rebind_rows(regions: &Vec<HitRegion>) -> (r: Vec<RebindViz>)
    ensures
        ({
            let rows = rebind_rows(regions@, regions@.len());
            &&& r@.len() == rows.len()
            &&& forall|i: int|
                0 <= i < rows.len() ==> is_rebind_row(regions@[rows[i]], #[trigger] r@[i])
        }),
{
    let mut out: Vec<RebindViz> = Vec::new();
    let mut k: usize = 0;
    while k < regions.len()
        invariant
            k <= regions@.len(),
            out@.len() == rebind_rows(regions@, k as nat).len(),
            forall|i: int|
                0 <= i < out@.len() ==> is_rebind_row(
                    regions@[rebind_rows(regions@, k as nat)[i]],
                    #[trigger] out@[i],
                ),
        decreases regions@.len() - k,
    {
        let r: &HitRegion = &regions[k];
        let ghost was = out@;
        let action: Option<Bindable> = match rebind_key_of(r.action.as_str()) {
            Some(key) => Bindable::from_setting_key(key),
            None => None,
        };
        match (action, r.label) {
            (Some(action), Some(value_id)) => {
                let v = RebindViz { action, value_id };
                assert(is_rebind_row(regions@[k as int], v));
                out.push(v);
            },
            _ => {
                assert(!rebinds(regions@[k as int]));
            },
        }
        proof {
            let rows = rebind_rows(regions@, (k + 1) as nat);
            assert forall|i: int| 0 <= i < out@.len() implies is_rebind_row(
                regions@[rows[i]],
                #[trigger] out@[i],
            ) by {
                if i < was.len() {
                    assert(out@[i] == was[i]);
                }
            }
        }
        k = k + 1;
    }
    out
}

/// The label of the first rebind row of an action.
pub fn rebind_label(rows: &Vec<RebindViz>, action: Bindable) -> (r: Option<AssetId>)
    ensures
        match r {
            Some(id) => exists|i: int|
                0 <= i < rows@.len() && (#[trigger] rows@[i]).action == action && rows@[i].value_id
                    == id && forall|j: int| 0 <= j < i ==> (#[trigger] rows@[j]).action != action,
            None => forall|j: int| 0 <= j < rows@.len() ==> (#[trigger] rows@[j]).action != action,
        },
{
    let mut i: usize = 0;
    while i < rows.len()
        invariant
            i <= rows@.len(),
            forall|j: int| 0 <= j < i ==> (#[trigger] rows@[j]).action != action,
        decreases rows@.len() - i,
    {
        if rows[i].action == action {
            assert(rows@[i as int].action == action);
            return Some(rows[i].value_id);
        }
        i = i + 1;
    }
    None
}

/// The label of the last cycle row among the first `k` regions with a key.
pub open spec fn cycle_label(regions: Seq<HitRegion>, key: Seq<char>, k: nat) -> Option<AssetId>
    decreases k,
{
    if k == 0 {
        None
    } else if keyed(regions[k - 1].action@, ":next"@) == Some(key) && regions[k - 1].label is Some {
        regions[k - 1].label
    } else {
        cycle_label(regions, key, (k - 1) as nat)
    }
}

/// The label that a list of keys and labels gives a key: that of its last entry.
pub open spec fn entry_label(
    entries: Seq<(String, AssetId)>,
    key: Seq<char>,
    k: nat,
) -> Option<AssetId>
    decreases k,
{
    if k == 0 {
        None
    } else if entries[k - 1].0@ == key {
        Some(entries[k - 1].1)
    } else {
        entry_label(entries, key, (k - 1) as nat)
    }
}

proof fn lemma_entries_grow(
    was: Seq<(String, AssetId)>,
    now: Seq<(String, AssetId)>,
    key: Seq<char>,
    k: nat,
)
    requires
        k <= was.len() <= now.len(),
        forall|i: int| 0 <= i < was.len() ==> now[i] == was[i],
    ensures
        entry_label(now, key, k) == entry_label(was, key, k),
    decreases k,
{
    if k > 0 {
        lemma_entries_grow(was, now, key, (k - 1) as nat);
    }
}

/// Capture the value label of every cycle row.
pub fn init_cycle_value_labels(regions: &Vec<HitRegion>) -> (r: Vec<(String, AssetId)>)
    ensures
        forall|key: Seq<char>| #[trigger]
            entry_label(r@, key, r@.len()) == cycle_label(regions@, key, regions@.len()),
{
    let mut out: Vec<(String, AssetId)> = Vec::new();
    let mut k: usize = 0;
    while k < regions.len()
        invariant
            k <= regions@.len(),
            forall|key: Seq<char>| #[trigger]
                entry_label(out@, key, out@.len()) == cycle_label(regions@, key, k as nat),
        decreases regions@.len() - k,
    {
        let r: &HitRegion = &regions[k];
        let ghost was = out@;
        match (cycle_next_key_of(r.action.as_str()), r.label) {
            (Some(key), Some(value_id)) => {
                out.push((key.to_string(), value_id));
            },
            _ => {},
        }
        proof {
            assert forall|key: Seq<char>| #[trigger]
                entry_label(out@, key, out@.len()) == cycle_label(
                regions@,
                key,
                (k + 1) as nat,
            ) by {
                lemma_entries_grow(was, out@, key, was.len());
                assert(entry_label(was, key, was.len()) == cycle_label(regions@, key, k as nat));
            }
        }
        k = k + 1;
    }
    out
}

/// The value label of a cycle row.
pub fn cached_row_label(entries: &Vec<(String, AssetId)>, key: &str) -> (r: Option<AssetId>)
    ensures
        r == entry_label(entries@, key@, entries@.len()),
{
    let mut found: Option<AssetId> = None;
    let mut i: usize = 0;
    while i < entries.len()
        invariant
            i <= entries@.len(),
            found == entry_label(entries@, key@, i as nat),
        decreases entries@.len() - i,
    {
        if same_text(entries[i].0.as_str(), key) {
            found = Some(entries[i].1);
        }
        i = i + 1;
    }
    found
}

/// Relabel a cycle row by its captured label; a row that is not there is passed over.
pub fn set_cached_row_label(
    entries: &Vec<(String, AssetId)>,
    labels: &mut Vec<TextLabel>,
    key: &str,
    text: &str,
)
    ensures
        only_texts_differ(old(labels)@, final(labels)@),
        texts_of(final(labels)@) == match entry_label(entries@, key@, entries@.len()) {
            Some(id) => written(ids_of(old(labels)@), texts_of(old(labels)@), id, text@),
            None => texts_of(old(labels)@),
        },
{
    match cached_row_label(entries, key) {
        Some(id) => set_label_content(labels, id, text),
        None => {},
    }
}

/// The clip bands after the first `j` rows of panel `p` and all panels before it.
pub open spec fn clips(panels: Seq<ScrollPanel>, p: nat, j: nat) -> Map<u32, Vec4>
    decreases p, j,
{
    if j == 0 {
        if p == 0 {
            Map::empty()
        } else {
            clips(panels, (p - 1) as nat, panels[p - 1].rows@.len())
        }
    } else {
        clip_row(
            clips(panels, p, (j - 1) as nat),
            panels[p as int].rows@[j - 1]@,
            panels[p as int].band,
            panels[p as int].rows@[j - 1]@.len(),
        )
    }
}

/// The clip bands with the first `e` elements of a row added.
pub open spec fn clip_row(
    map: Map<u32, Vec4>,
    row: Seq<AssetId>,
    band: Vec4,
    e: nat,
) -> Map<u32, Vec4>
    decreases e,
{
    if e == 0 {
        map
    } else {
        clip_row(map, row, band, (e - 1) as nat).insert(row[e - 1], band)
    }
}

fn add_clip_row(map: &mut HashMap<u32, Vec4>, row: &Vec<AssetId>, band: Vec4)
    ensures
        final(map)@ == clip_row(old(map)@, row@, band, row@.len()),
{
    let ghost was = map@;
    let mut e: usize = 0;
    while e < row.len()
        invariant
            e <= row@.len(),
            map@ == clip_row(was, row@, band, e as nat),
        decreases row@.len() - e,
    {
        broadcast use vstd::std_specs::hash::group_hash_axioms;

        map.insert(row[e], band);
        e = e + 1;
    }
}

/// Capture the clip band of every element that scrolls: its panel's content band, the
/// last one where several panels list it.
pub fn init_clip_rects(panels: &Vec<ScrollPanel>) -> (r: HashMap<u32, Vec4>)
    ensures
        r@ == clips(panels@, panels@.len(), 0),
{
    broadcast use vstd::std_specs::hash::group_hash_axioms;

    let mut map: HashMap<u32, Vec4> = HashMap::new();
    assert(map@ =~= Map::<u32, Vec4>::empty());
    let mut p: usize = 0;
    while p < panels.len()
        invariant
            p <= panels@.len(),
            map@ == clips(panels@, p as nat, 0),
        decreases panels@.len() - p,
    {
        let panel: &ScrollPanel = &panels[p];
        let mut j: usize = 0;
        while j < panel.rows.len()
            invariant
                p < panels@.len(),
                *panel == panels@[p as int],
                j <= panel.rows@.len(),
                map@ == clips(panels@, p as nat, j as nat),
            decreases panel.rows@.len() - j,
        {
            add_clip_row(&mut map, &panel.rows[j], panel.band);
            j = j + 1;
        }
        p = p + 1;
    }
    map
}

/// Every scrolling element has a clip band.
pub proof fn law_scrolling_elements_are_clipped(panels: Seq<ScrollPanel>, p: nat, j: nat, e: int)
    requires
        p < panels.len(),
        j < panels[p as int].rows@.len(),
        0 <= e < panels[p as int].rows@[j as int]@.len(),
    ensures
        clips(panels, (p + 1) as nat, 0).dom().contains(panels[p as int].rows@[j as int]@[e]),
{
    let id = panels[p as int].rows@[j as int]@[e];
    let row = panels[p as int].rows@[j as int]@;
    lemma_clip_row_has(
        clips(panels, p, j),
        row,
        panels[p as int].band,
        row.len(),
        e,
    );
    lemma_clips_keep(panels, p, (j + 1) as nat, panels[p as int].rows@.len(), id);
}

proof fn lemma_clip_row_has(map: Map<u32, Vec4>, row: Seq<AssetId>, band: Vec4, n: nat, e: int)
    requires
        0 <= e < n <= row.len(),
    ensures
        clip_row(map, row, band, n).dom().contains(row[e]),
    decreases n,
{
    if e < n - 1 {
        lemma_clip_row_has(map, row, band, (n - 1) as nat, e);
    }
}

proof fn lemma_clip_row_keeps(map: Map<u32, Vec4>, row: Seq<AssetId>, band: Vec4, n: nat, id: u32)
    requires
        n <= row.len(),
        map.dom().contains(id),
    ensures
        clip_row(map, row, band, n).dom().contains(id),
    decreases n,
{
    if n > 0 {
        lemma_clip_row_keeps(map, row, band, (n - 1) as nat, id);
    }
}

proof fn lemma_clips_keep(panels: Seq<ScrollPanel>, p: nat, j: nat, n: nat, id: u32)
    requires
        p < panels.len(),
        j <= n <= panels[p as int].rows@.len(),
        clips(panels, p, j).dom().contains(id),
    ensures
        clips(panels, p, n).dom().contains(id),
    decreases n - j,
{
    if j < n {
        lemma_clips_keep(panels, p, j, (n - 1) as nat, id);
        let row = panels[p as int].rows@[n - 1]@;
        lemma_clip_row_keeps(
            clips(panels, p, (n - 1) as nat),
            row,
            panels[p as int].band,
            row.len(),
            id,
        );
    }
}

/// A view-owned element is shown, so a menu is open.
pub open spec fn menu_open(labels: Seq<TextLabel>, sprites: Seq<Sprite>) -> bool {
    ||| exists|i: int|
        0 <= i < labels.len() && (#[trigger] labels[i]).visible && labels[i].view is Some
    ||| exists|i: int|
        0 <= i < sprites.len() && (#[trigger] sprites[i]).visible && sprites[i].view is Some
}

/// Whether a menu is open.
pub fn menu_active(labels: &Vec<TextLabel>, sprites: &Vec<Sprite>) -> (r: bool)
    ensures
        r == menu_open(labels@, sprites@),
{
    let mut i: usize = 0;
    while i < labels.len()
        invariant
            i <= labels@.len(),
            forall|j: int|
                0 <= j < i ==> !((#[trigger] labels@[j]).visible && labels@[j].view is Some),
        decreases labels@.len() - i,
    {
        if labels[i].visible && labels[i].view.is_some() {
            assert(labels@[i as int].visible);
            return true;
        }
        i = i + 1;
    }
    let mut k: usize = 0;
    while k < sprites.len()
        invariant
            k <= sprites@.len(),
            forall|j: int|
                0 <= j < labels@.len() ==> !((#[trigger] labels@[j]).visible
                    && labels@[j].view is Some),
            forall|j: int|
                0 <= j < k ==> !((#[trigger] sprites@[j]).visible && sprites@[j].view is Some),
        decreases sprites@.len() - k,
    {
        if sprites[k].visible && sprites[k].view.is_some() {
            assert(sprites@[k as int].visible);
            return true;
        }
        k = k + 1;
    }
    false
}

/// A sprite that draws the pointer: it follows the cursor, is shown and is not fully
/// transparent.
pub open spec fn draws_pointer(s: Sprite) -> bool {
    s.follow_cursor && s.visible && zero().less(s.tint[3])
}

/// Whether the engine draws the pointer, so that the system cursor is hidden.
pub fn want_ui_cursor(sprites: &Vec<Sprite>) -> (r: bool)
    ensures
        r == exists|i: int| 0 <= i < sprites@.len() && draws_pointer(#[trigger] sprites@[i]),
{
    let none: FloatBits = FloatBits::new(0);
    let mut i: usize = 0;
    while i < sprites.len()
        invariant
            i <= sprites@.len(),
            none == zero(),
            forall|j: int| 0 <= j < i ==> !draws_pointer(#[trigger] sprites@[j]),
        decreases sprites@.len() - i,
    {
        let s: Sprite = sprites[i];
        if s.follow_cursor && s.visible && none.lt(s.tint[3]) {
            assert(draws_pointer(sprites@[i as int]));
            return true;
        }
        i = i + 1;
    }
    false
}

/// An action with a key is the prefix, the key and the suffix, one after the other, and no
/// key is empty.
pub proof fn law_action_is_prefix_key_and_suffix(
    action: Seq<char>,
    suffix: Seq<char>,
    key: Seq<char>,
)
    ensures
        keyed(action, suffix) == Some(key) <==> key.len() > 0 && action == "setting:"@ + key
            + suffix,
        keyed(action, suffix) is None ==> key.len() == 0 || action != "setting:"@ + key + suffix,
{
    let p = "setting:"@;
    if key.len() > 0 && action == p + key + suffix {
        assert(action.subrange(0, p.len() as int) =~= p);
        let rest = action.subrange(p.len() as int, action.len() as int);
        assert(rest.subrange(rest.len() - suffix.len(), rest.len() as int) =~= suffix);
        assert(action.subrange(p.len() as int, action.len() - suffix.len()) =~= key);
    }
    if keyed(action, suffix) == Some(key) {
        let rest = action.subrange(p.len() as int, action.len() as int);
        assert(action.subrange(0, p.len() as int) == p);
        assert(rest.subrange(rest.len() - suffix.len(), rest.len() as int) == suffix);
        assert forall|i: int| 0 <= i < action.len() implies action[i] == (p + key + suffix)[i] by {
            if i < p.len() {
                assert(action.subrange(0, p.len() as int)[i] == p[i]);
            } else if i >= p.len() + key.len() {
                let j = i - p.len() - key.len();
                assert(rest.subrange(rest.len() - suffix.len(), rest.len() as int)[j] == suffix[j]);
            }
        }
        assert(action =~= p + key + suffix);
    }
}

/// The setting of an action stands between the prefix and the next colon, or the end.
pub proof fn law_setting_ends_at_the_colon(action: Seq<char>, key: Seq<char>, rest: Seq<char>)
    requires
        action == "setting:"@ + key + rest,
        forall|i: int| 0 <= i < key.len() ==> key[i] != ':',
        rest.len() > 0 ==> rest[0] == ':',
    ensures
        setting_of(action) == Some(key),
{
    let p = "setting:"@;
    assert(action.subrange(0, p.len() as int) =~= p);
    let tail = action.subrange(p.len() as int, action.len() as int);
    assert(tail =~= key + rest);
    lemma_head(tail, key.len() as int);
    assert(tail.subrange(0, key.len() as int) =~= key);
}

/// A text is written to the first label with the id, and to no other label.
pub proof fn law_text_is_written_to_its_label(
    ids: Seq<AssetId>,
    texts: Seq<Seq<char>>,
    id: AssetId,
    text: Seq<char>,
    i: int,
)
    requires
        ids.len() == texts.len(),
        0 <= i < ids.len(),
    ensures
        written(ids, texts, id, text).len() == texts.len(),
        ids[i] == id && (forall|j: int| 0 <= j < i ==> ids[j] != id) ==> written(
            ids,
            texts,
            id,
            text,
        )[i] == text,
        ids[i] != id || (exists|j: int| 0 <= j < i && ids[j] == id) ==> written(
            ids,
            texts,
            id,
            text,
        )[i] == texts[i],
{
    if ids.contains(id) {
        ids.index_of_first_ensures(id);
        let f = ids.index_of_first(id)->0;
        if exists|j: int| 0 <= j < i && ids[j] == id {
            let j = choose|j: int| 0 <= j < i && ids[j] == id;
            assert(f <= j);
        }
    } else {
        assert(ids[i] != id) by {
            if ids[i] == id {
                assert(ids.contains(id));
            }
        }
    }
}

/// The text of a setting is that of its first entry in the table.
pub proof fn law_first_entry_is_shown(
    table: Seq<(String, String)>,
    key: Seq<char>,
    k: nat,
    i: int,
)
    requires
        0 <= i < k <= table.len(),
        table[i].0@ == key,
        forall|j: int| 0 <= j < i ==> (#[trigger] table[j]).0@ != key,
    ensures
        shown(table, key, k) == Some(table[i].1@),
    decreases k,
{
    if i < k - 1 {
        law_first_entry_is_shown(table, key, (k - 1) as nat, i);
    } else {
        lemma_nothing_shown(table, key, i as nat);
    }
}

/// A setting that the table does not list has no text.
proof fn lemma_nothing_shown(table: Seq<(String, String)>, key: Seq<char>, k: nat)
    requires
        k <= table.len(),
        forall|j: int| 0 <= j < k ==> (#[trigger] table[j]).0@ != key,
    ensures
        shown(table, key, k) is None,
    decreases k,
{
    if k > 0 {
        lemma_nothing_shown(table, key, (k - 1) as nat);
    }
}

/// A row shows the live value of its own setting: the first label with the id of the row's
/// label holds the text of the row's setting, where no later row writes to that label.
pub proof fn law_row_shows_its_setting(
    regions: Seq<HitRegion>,
    table: Seq<(String, String)>,
    ids: Seq<AssetId>,
    texts: Seq<Seq<char>>,
    k: nat,
    r: int,
    i: int,
)
    requires
        0 <= r < k <= regions.len(),
        ids.len() == texts.len(),
        0 <= i < ids.len(),
        setting_of(regions[r].action@) is Some,
        regions[r].label == Some(ids[i]),
        forall|j: int| 0 <= j < i ==> ids[j] != ids[i],
        shown(table, setting_of(regions[r].action@)->0, table.len()) is Some,
        forall|s: int| r < s < k ==> (#[trigger] regions[s]).label != Some(ids[i]),
    ensures
        Some(synced(regions, table, ids, texts, k)[i]) == shown(
            table,
            setting_of(regions[r].action@)->0,
            table.len(),
        ),
    decreases k,
{
    lemma_synced_len(regions, table, ids, texts, (k - 1) as nat);
    let before = synced(regions, table, ids, texts, (k - 1) as nat);
    if r < k - 1 {
        law_row_shows_its_setting(regions, table, ids, texts, (k - 1) as nat, r, i);
        assert(regions[k - 1].label != Some(ids[i]));
        match row_of(regions[k - 1]) {
            Some((key, label)) => match shown(table, key, table.len()) {
                Some(text) => law_text_is_written_to_its_label(ids, before, label, text, i),
                None => {},
            },
            None => {},
        }
    } else {
        let text = shown(table, setting_of(regions[r].action@)->0, table.len())->0;
        law_text_is_written_to_its_label(ids, before, ids[i], text, i);
    }
}

proof fn lemma_synced_len(
    regions: Seq<HitRegion>,
    table: Seq<(String, String)>,
    ids: Seq<AssetId>,
    texts: Seq<Seq<char>>,
    k: nat,
)
    requires
        k <= regions.len(),
        ids.len() == texts.len(),
    ensures
        synced(regions, table, ids, texts, k).len() == texts.len(),
    decreases k,
{
    if k > 0 {
        lemma_synced_len(regions, table, ids, texts, (k - 1) as nat);
        match row_of(regions[k - 1]) {
            Some((_, label)) => {
                if ids.contains(label) {
                    ids.index_of_first_ensures(label);
                }
            },
            None => {},
        }
    }
}

/// A label that is no row's keeps its text.
pub proof fn law_other_labels_keep_their_text(
    regions: Seq<HitRegion>,
    table: Seq<(String, String)>,
    ids: Seq<AssetId>,
    texts: Seq<Seq<char>>,
    k: nat,
    i: int,
)
    requires
        k <= regions.len(),
        ids.len() == texts.len(),
        0 <= i < ids.len(),
        forall|s: int| 0 <= s < k ==> (#[trigger] regions[s]).label != Some(ids[i]),
    ensures
        synced(regions, table, ids, texts, k)[i] == texts[i],
    decreases k,
{
    if k > 0 {
        law_other_labels_keep_their_text(regions, table, ids, texts, (k - 1) as nat, i);
        lemma_synced_len(regions, table, ids, texts, (k - 1) as nat);
        let before = synced(regions, table, ids, texts, (k - 1) as nat);
        assert(regions[k - 1].label != Some(ids[i]));
        match row_of(regions[k - 1]) {
            Some((key, label)) => match shown(table, key, table.len()) {
                Some(text) => law_text_is_written_to_its_label(ids, before, label, text, i),
                None => {},
            },
            None => {},
        }
    }
}

/// The rows of the panels are those that some panel lists.
pub proof fn law_panel_rows_are_listed(panels: Seq<ScrollPanel>, k: nat, row: Seq<AssetId>)
    requires
        k <= panels.len(),
    ensures
        panel_rows(panels, k).contains(row) <==> exists|p: int, j: int|
            0 <= p < k && 0 <= j < panels[p].rows@.len() && (#[trigger] panels[p].rows@[j])@ == row,
    decreases k,
{
    if k > 0 {
        law_panel_rows_are_listed(panels, (k - 1) as nat, row);
        let before = panel_rows(panels, (k - 1) as nat);
        let now = panel_rows(panels, k);
        let own = panels[k - 1].rows@;
        if before.contains(row) {
            let c = choose|c: int| 0 <= c < before.len() && before[c] == row;
            assert(now[c] == row);
        }
        if now.contains(row) && !before.contains(row) {
            let c = choose|c: int| 0 <= c < now.len() && now[c] == row;
            assert(panels[k - 1].rows@[c - before.len()]@ == row);
        }
        if exists|p: int, j: int|
            0 <= p < k && 0 <= j < panels[p].rows@.len() && (#[trigger] panels[p].rows@[j])@ == row {
            let (p, j) = choose|p: int, j: int|
                0 <= p < k && 0 <= j < panels[p].rows@.len() && (#[trigger] panels[p].rows@[j])@
                    == row;
            if p == k - 1 {
                assert(now[before.len() + j] == row);
            }
        }
    }
}

/// A handle is as wide as the last sprite with its id, and of no width where none has it.
pub proof fn law_handle_is_as_wide_as_its_sprite(sprites: Seq<Sprite>, id: AssetId, k: nat, i: int)
    requires
        k <= sprites.len(),
    ensures
        0 <= i < k && sprites[i].asset_id == id && (forall|j: int|
            i < j < k ==> (#[trigger] sprites[j]).asset_id != id) ==> width_of(sprites, id, k)
            == sprites[i].width,
        (forall|j: int| 0 <= j < k ==> (#[trigger] sprites[j]).asset_id != id) ==> width_of(
            sprites,
            id,
            k,
        ).bits == 0,
    decreases k,
{
    if k > 0 {
        law_handle_is_as_wide_as_its_sprite(sprites, id, (k - 1) as nat, i);
        if i < k - 1 && (forall|j: int| i < j < k ==> (#[trigger] sprites[j]).asset_id != id) {
            assert(sprites[k - 1].asset_id != id);
        }
        if forall|j: int| 0 <= j < k ==> (#[trigger] sprites[j]).asset_id != id {
            assert(sprites[k - 1].asset_id != id);
        }
    }
}

/// A region is captured as a slider exactly where it is dragged, has a handle and has a
/// label.
pub proof fn law_dragged_rows_are_sliders(regions: Seq<HitRegion>, k: nat, i: int)
    requires
        k <= regions.len(),
    ensures
        slider_rows(regions, k).contains(i) <==> 0 <= i < k && keyed(
            regions[i].action@,
            ":drag"@,
        ) is Some && regions[i].drag_handle is Some && regions[i].label is Some,
    decreases k,
{
    if k > 0 {
        law_dragged_rows_are_sliders(regions, (k - 1) as nat, i);
        let before = slider_rows(regions, (k - 1) as nat);
        let now = slider_rows(regions, k);
        if before.contains(i) {
            let c = choose|c: int| 0 <= c < before.len() && before[c] == i;
            assert(now[c] == i);
        }
        if now.len() > before.len() && i == k - 1 {
            assert(now[now.len() - 1] == i);
        }
        if now.contains(i) && !before.contains(i) {
            let c = choose|c: int| 0 <= c < now.len() && now[c] == i;
            assert(c == before.len());
        }
    }
}

/// A region is captured as a rebind row exactly where its key names an action and it has a
/// label.
pub proof fn law_rebind_rows_name_an_action(regions: Seq<HitRegion>, k: nat, i: int)
    requires
        k <= regions.len(),
    ensures
        rebind_rows(regions, k).contains(i) <==> 0 <= i < k && regions[i].label is Some && exists|
            b: Bindable,
        |
            keyed(regions[i].action@, ":rebind"@) == Some(#[trigger] setting_text(b)),
    decreases k,
{
    if 0 <= i < regions.len() && regions[i].label is Some && exists|b: Bindable|
        keyed(regions[i].action@, ":rebind"@) == Some(#[trigger] setting_text(b)) {
        let b = choose|b: Bindable|
            keyed(regions[i].action@, ":rebind"@) == Some(#[trigger] setting_text(b));
        assert(is_rebind_row(regions[i], RebindViz { action: b, value_id: regions[i].label->0 }));
    }
    if k > 0 {
        law_rebind_rows_name_an_action(regions, (k - 1) as nat, i);
        let before = rebind_rows(regions, (k - 1) as nat);
        let now = rebind_rows(regions, k);
        if before.contains(i) {
            let c = choose|c: int| 0 <= c < before.len() && before[c] == i;
            assert(now[c] == i);
        }
        if now.len() > before.len() && i == k - 1 {
            assert(now[now.len() - 1] == i);
            let v = choose|v: RebindViz| is_rebind_row(regions[i], v);
            assert(keyed(regions[i].action@, ":rebind"@) == Some(setting_text(v.action)));
        }
        if now.contains(i) && !before.contains(i) {
            let c = choose|c: int| 0 <= c < now.len() && now[c] == i;
            assert(c == before.len());
        }
    }
}

/// The label of a cycle row is that of the last region that steps the setting forward and
/// has a label.
pub proof fn law_cycle_label_is_the_last(
    regions: Seq<HitRegion>,
    key: Seq<char>,
    k: nat,
    i: int,
)
    requires
        0 <= i < k <= regions.len(),
        keyed(regions[i].action@, ":next"@) == Some(key),
        regions[i].label is Some,
        forall|j: int|
            i < j < k ==> keyed((#[trigger] regions[j]).action@, ":next"@) != Some(key)
                || regions[j].label is None,
    ensures
        cycle_label(regions, key, k) == regions[i].label,
    decreases k,
{
    if i < k - 1 {
        law_cycle_label_is_the_last(regions, key, (k - 1) as nat, i);
        assert(keyed(regions[k - 1].action@, ":next"@) != Some(key) || regions[k
            - 1].label is None);
    }
}

/// The label of an entry is that of the last one with the key.
pub proof fn law_entry_label_is_the_last(
    entries: Seq<(String, AssetId)>,
    key: Seq<char>,
    k: nat,
    i: int,
)
    requires
        0 <= i < k <= entries.len(),
        entries[i].0@ == key,
        forall|j: int| i < j < k ==> (#[trigger] entries[j]).0@ != key,
    ensures
        entry_label(entries, key, k) == Some(entries[i].1),
    decreases k,
{
    if i < k - 1 {
        law_entry_label_is_the_last(entries, key, (k - 1) as nat, i);
        assert(entries[k - 1].0@ != key);
    }
}

/// A row that its panel lists is clipped to that panel's own band, as long as no later panel
/// lists its element too.
pub proof fn law_clipped_to_the_panels_band(
    panels: Seq<ScrollPanel>,
    p: nat,
    n: nat,
    id: u32,
)
    requires
        p < n <= panels.len(),
        clips_element(panels[p as int], id),
        forall|q: int| p < q < n ==> !clips_element(#[trigger] panels[q], id),
    ensures
        clips(panels, n, 0).dom().contains(id),
        clips(panels, n, 0)[id] == panels[p as int].band,
    decreases n,
{
    let rows = panels[n - 1].rows@.len();
    if p < n - 1 {
        law_clipped_to_the_panels_band(panels, p, (n - 1) as nat, id);
        assert(!clips_element(panels[n - 1], id));
        lemma_clips_within(panels, (n - 1) as nat, rows, id);
    } else {
        let j = choose|j: int|
            0 <= j < panels[p as int].rows@.len() && (
            #[trigger] panels[p as int].rows@[j])@.contains(id);
        lemma_clips_within(panels, p, rows, id);
        assert(panels[p as int].rows@[j]@.contains(id));
    }
}

/// A panel lists an element.
pub open spec fn clips_element(panel: ScrollPanel, id: u32) -> bool {
    exists|j: int| 0 <= j < panel.rows@.len() && (#[trigger] panel.rows@[j])@.contains(id)
}

proof fn lemma_clip_row_band(map: Map<u32, Vec4>, row: Seq<AssetId>, band: Vec4, n: nat, id: u32)
    requires
        n <= row.len(),
    ensures
        ({
            let now = clip_row(map, row, band, n);
            &&& row.subrange(0, n as int).contains(id) ==> now.dom().contains(id) && now[id] == band
            &&& !row.subrange(0, n as int).contains(id) ==> (now.dom().contains(id)
                <==> map.dom().contains(id)) && (map.dom().contains(id) ==> now[id] == map[id])
        }),
    decreases n,
{
    if n > 0 {
        lemma_clip_row_band(map, row, band, (n - 1) as nat, id);
        let head = row.subrange(0, n - 1);
        let next = row.subrange(0, n as int);
        assert(next[n - 1] == row[n - 1]);
        if head.contains(id) {
            let i = choose|i: int| 0 <= i < head.len() && head[i] == id;
            assert(next[i] == id);
        }
        if next.contains(id) && row[n - 1] != id {
            let i = choose|i: int| 0 <= i < next.len() && next[i] == id;
            assert(head[i] == id);
        }
    }
}

proof fn lemma_clips_within(panels: Seq<ScrollPanel>, p: nat, j: nat, id: u32)
    requires
        p < panels.len(),
        j <= panels[p as int].rows@.len(),
    ensures
        (exists|x: int| 0 <= x < j && (#[trigger] panels[p as int].rows@[x])@.contains(id))
            ==> clips(panels, p, j).dom().contains(id) && clips(panels, p, j)[id]
            == panels[p as int].band,
        (forall|x: int| 0 <= x < j ==> !(#[trigger] panels[p as int].rows@[x])@.contains(id))
            ==> (clips(panels, p, j).dom().contains(id) <==> clips(panels, p, 0).dom().contains(id))
            && (clips(panels, p, 0).dom().contains(id) ==> clips(panels, p, j)[id] == clips(
            panels,
            p,
            0,
        )[id]),
    decreases j,
{
    if j > 0 {
        lemma_clips_within(panels, p, (j - 1) as nat, id);
        let row = panels[p as int].rows@[j - 1]@;
        lemma_clip_row_band(
            clips(panels, p, (j - 1) as nat),
            row,
            panels[p as int].band,
            row.len(),
            id,
        );
        assert(row.subrange(0, row.len() as int) =~= row);
        assert(panels[p as int].rows@[j - 1]@.contains(id) == row.contains(id));
    }
}

/// A sprite draws the pointer exactly where it follows the cursor, is shown and has an alpha
/// above zero.
pub proof fn law_pointer_sprite_is_seen(s: Sprite)
    ensures
        draws_pointer(s) <==> s.follow_cursor && s.visible && 0 < s.tint[3].bits <= 0x7f80_0000,
{
}

/// An element is grayed exactly where it is itself gated, or shares a row with one that is.
pub proof fn law_gray_spreads_along_the_row(gated: Set<u32>, rows: Seq<Seq<AssetId>>, id: u32)
    ensures
        grayed(gated, rows, rows.len(), id) <==> gated.contains(id) || exists|i: int, a: int, b: int|
            0 <= i < rows.len() && 0 <= a < rows[i].len() && 0 <= b < rows[i].len()
                && #[trigger] rows[i][a] == id && gated.contains(#[trigger] rows[i][b]),
{
    if grayed(gated, rows, rows.len(), id) && !gated.contains(id) {
        let i = choose|i: int|
            0 <= i < rows.len() && meets(#[trigger] rows[i], gated) && rows[i].contains(id);
        let a = choose|a: int| 0 <= a < rows[i].len() && rows[i][a] == id;
        let b = choose|b: int| 0 <= b < rows[i].len() && gated.contains(#[trigger] rows[i][b]);
        assert(rows[i][a] == id && gated.contains(rows[i][b]));
    }
    if exists|i: int, a: int, b: int|
        0 <= i < rows.len() && 0 <= a < rows[i].len() && 0 <= b < rows[i].len()
            && #[trigger] rows[i][a] == id && gated.contains(#[trigger] rows[i][b]) {
        let (i, a, b) = choose|i: int, a: int, b: int|
            0 <= i < rows.len() && 0 <= a < rows[i].len() && 0 <= b < rows[i].len()
                && #[trigger] rows[i][a] == id && gated.contains(#[trigger] rows[i][b]);
        assert(meets(rows[i], gated));
        assert(rows[i].contains(id));
    }
}

/// A region is gated exactly where the setting that its action names is unavailable, and a
/// label exactly where it shows the value of such a region.
pub proof fn law_unavailable_settings_are_gated(
    regions: Seq<HitRegion>,
    unavailable: Seq<String>,
    r: int,
    id: u32,
)
    requires
        0 <= r < regions.len(),
    ensures
        region_gated(regions[r], unavailable) <==> setting_of(regions[r].action@) is Some && exists|
            u: int,
        |
            0 <= u < unavailable.len() && (#[trigger] unavailable[u])@ == setting_of(
                regions[r].action@,
            )->0,
        region_gated(regions[r], unavailable) && regions[r].label == Some(id) ==> gated_labels(
            regions,
            unavailable,
        ).contains(id),
        gated_labels(regions, unavailable).contains(id) ==> exists|k: int|
            0 <= k < regions.len() && (#[trigger] regions[k]).label == Some(id) && region_gated(
                regions[k],
                unavailable,
            ),
{
    if gated_labels(regions, unavailable).contains(id) {
        let k = choose|i: int|
            0 <= i < regions.len() && region_gated(#[trigger] regions[i], unavailable)
                && regions[i].label == Some(id);
        assert(regions[k].label == Some(id));
    }
}

/// A slider runs along its row's region, for the setting that the row drags; its handle is
/// the sprite that the drag moves, as wide as that sprite, and its value the row's label.
pub proof fn law_slider_runs_along_its_row(r: HitRegion, sprites: Seq<Sprite>, s: SliderViz)
    requires
        is_slider(r, sprites, s),
    ensures
        r.action@ == "setting:"@ + s.key@ + ":drag"@,
        s.track_x == r.x,
        s.track_w == r.width,
        r.drag_handle == Some(s.handle_id),
        r.label == Some(s.value_id),
        forall|i: int|
            0 <= i < sprites.len() && (#[trigger] sprites[i]).asset_id == s.handle_id && (forall|
                j: int,
            |
                i < j < sprites.len() ==> (#[trigger] sprites[j]).asset_id != s.handle_id)
                ==> s.handle_w == sprites[i].width,
{
    law_action_is_prefix_key_and_suffix(r.action@, ":drag"@, s.key@);
    assert forall|i: int|
        0 <= i < sprites.len() && (#[trigger] sprites[i]).asset_id == s.handle_id && (forall|
            j: int,
        |
            i < j < sprites.len() ==> (#[trigger] sprites[j]).asset_id
                != s.handle_id) implies s.handle_w == sprites[i].width by {
        law_handle_is_as_wide_as_its_sprite(sprites, s.handle_id, sprites.len(), i);
    }
}

/// Where only texts differ, every label keeps its name, its colour, its view and whether it
/// is seen; and the texts, the names and the rows of a list are those of its elements.
pub proof fn law_labels_keep_all_but_their_text(
    was: Seq<TextLabel>,
    now: Seq<TextLabel>,
    rows: Seq<Vec<AssetId>>,
    i: int,
)
    ensures
        only_texts_differ(was, now) && 0 <= i < was.len() ==> {
            &&& now.len() == was.len()
            &&& now[i].asset_id == was[i].asset_id
            &&& now[i].color == was[i].color
            &&& now[i].visible == was[i].visible
            &&& now[i].view == was[i].view
        },
        texts_of(was).len() == was.len(),
        ids_of(was).len() == was.len(),
        0 <= i < was.len() ==> texts_of(was)[i] == was[i].content@ && ids_of(was)[i]
            == was[i].asset_id,
        row_views(rows).len() == rows.len(),
        0 <= i < rows.len() ==> row_views(rows)[i] == rows[i]@,
{
    if only_texts_differ(was, now) && 0 <= i < was.len() {
        let l = now[i];
    }
}

} // verus!
