//! The decisions of the LDtk entity loader: which kind of entity an LDtk
//! entity is, where its script comes from, its animation frames, and which
//! map and pixel position it is placed at.
use crate::components::{ScriptSource, Sprite};
use crate::math::{PixelUnits, Rect, Vec2};
use crate::world::tdiv;
use crate::text::{chars_of, find_chars, find_spec, lemma_find_spec_first, occurs_at, string_from_chars, str_eq};
use vstd::prelude::*;
use vstd::string::*;

verus! {

/// The old script triggers that LDtk entities still name.
#[derive(Clone, Copy, Debug, PartialEq, Eq, Structural)]
pub enum Trigger {
    Interaction,
    SoftCollision,
    HardCollision,
}

/// The kinds of LDtk entity the loader builds.
#[derive(Clone, Copy, Debug, PartialEq, Eq, Structural)]
pub enum LdtkEntityKind {
    Generic,
    SimpleScript,
    SimpleAnim,
    DualStateAnim,
    Character,
}

/// The kind an LDtk entity identifier names, if any.
pub open spec fn entity_kind_named(id: Seq<char>) -> Option<LdtkEntityKind> {
    if id == "generic"@ {
        Some(LdtkEntityKind::Generic)
    } else if id == "simple_script"@ {
        Some(LdtkEntityKind::SimpleScript)
    } else if id == "simple_anim"@ {
        Some(LdtkEntityKind::SimpleAnim)
    } else if id == "dual_state_anim"@ {
        Some(LdtkEntityKind::DualStateAnim)
    } else if id == "character"@ {
        Some(LdtkEntityKind::Character)
    } else {
        None
    }
}

/// The kind of an LDtk entity by its identifier; other identifiers are
/// skipped (`None`).
pub fn ldtk_entity_kind(identifier: &str) -> (k: Option<LdtkEntityKind>)
    ensures
        k == entity_kind_named(identifier@),
{
    if str_eq(identifier, "generic") {
        Some(LdtkEntityKind::Generic)
    } else if str_eq(identifier, "simple_script") {
        Some(LdtkEntityKind::SimpleScript)
    } else if str_eq(identifier, "simple_anim") {
        Some(LdtkEntityKind::SimpleAnim)
    } else if str_eq(identifier, "dual_state_anim") {
        Some(LdtkEntityKind::DualStateAnim)
    } else if str_eq(identifier, "character") {
        Some(LdtkEntityKind::Character)
    } else {
        None
    }
}

/// A script source named `FILE::LABEL`: the script `LABEL` of
/// `data/FILE.lua`, split at the first `::`.
pub open spec fn external_source_spec(name: Seq<char>) -> Option<(Seq<char>, Seq<char>)> {
    match find_spec(name, "::"@, 0) {
        None => None,
        Some(i) => Some(("data/"@ + name.subrange(0, i) + ".lua"@, name.subrange(i + 2, name.len() as int))),
    }
}

/// The script source an entity's `external_source` field names
/// (`FILE::LABEL`, the script `LABEL` in `data/FILE.lua`); `None` if the name
/// has no `::`.
pub fn external_script_source(source_name: &str) -> (r: Option<ScriptSource>)
    ensures
        match external_source_spec(source_name@) {
            None => r is None,
            Some((path, label)) => r matches Some(ScriptSource::File { filepath, name_in_file: Some(l) })
                && filepath@ == path && l@ == label,
        },
{
    let s = chars_of(source_name);
    let sep = chars_of("::");
    proof {
        reveal_strlit("::");
    }
    match find_chars(&s, &sep, 0) {
        None => None,
        Some(i) => {
            assert(i + 2 <= s.len());
            let mut path = String::from_str("data/");
            let mut k: usize = 0;
            let ghost p0 = path@;
            while k < i
                invariant
                    k <= i,
                    i + 2 <= s@.len(),
                    path@ == p0 + s@.subrange(0, k as int),
                decreases i - k,
            {
                crate::text::push_char(&mut path, s[k]);
                k = k + 1;
                assert(path@ =~= p0 + s@.subrange(0, k as int));
            }
            path.append(".lua");
            let mut label_chars: Vec<char> = Vec::new();
            let mut j: usize = i + 2;
            while j < s.len()
                invariant
                    i + 2 <= j <= s@.len(),
                    label_chars@ == s@.subrange(i + 2, j as int),
                decreases s@.len() - j,
            {
                label_chars.push(s[j]);
                j = j + 1;
                assert(label_chars@ =~= s@.subrange(i + 2, j as int));
            }
            let label = string_from_chars(&label_chars);
            Some(ScriptSource::File { filepath: path, name_in_file: Some(label) })
        },
    }
}

/// The sprite of animation frame column `col` of a strip of `w` by `h`
/// frames: the frame's rectangle on the sheet, anchored at its centre.
pub open spec fn strip_frame(sheet: Seq<char>, col: u32, w: i64, h: i64, s: Sprite) -> bool {
    &&& s.spritesheet@ == sheet
    &&& s.rect.x == col * (w as u32)
    &&& s.rect.y == 0
    &&& s.rect.width == w as u32
    &&& s.rect.height == h as u32
    &&& s.anchor.x == tdiv(w as i32 as int, 2)
    &&& s.anchor.y == tdiv(h as i32 as int, 2)
}

/// The sprites of the frames `cols` of a one-row strip of `w` by `h`
/// frames, in order.
pub fn strip_sprites(spritesheet: &String, cols: &Vec<u32>, w: i64, h: i64) -> (r: Vec<Sprite>)
    requires
        forall|k: int| 0 <= k < cols@.len() ==> #[trigger] cols@[k] * (w as u32) <= u32::MAX,
    ensures
        r@.len() == cols@.len(),
        forall|k: int| 0 <= k < r@.len() ==> strip_frame(spritesheet@, cols@[k], w, h, #[trigger] r@[k]),
{
    let fw = #[verifier::truncate] (w as u32);
    let fh = #[verifier::truncate] (h as u32);
    let ax = (#[verifier::truncate] (w as i32)) / 2;
    let ay = (#[verifier::truncate] (h as i32)) / 2;
    let mut r: Vec<Sprite> = Vec::new();
    let mut k: usize = 0;
    while k < cols.len()
        invariant
            k <= cols@.len(),
            fw == w as u32,
            fh == h as u32,
            ax == tdiv(w as i32 as int, 2),
            ay == tdiv(h as i32 as int, 2),
            forall|k: int| 0 <= k < cols@.len() ==> #[trigger] cols@[k] * (w as u32) <= u32::MAX,
            r@.len() == k,
            forall|j: int| 0 <= j < k ==> strip_frame(spritesheet@, cols@[j], w, h, #[trigger] r@[j]),
        decreases cols@.len() - k,
    {
        let col = cols[k];
        assert(col * fw <= u32::MAX);
        let s = Sprite {
            spritesheet: spritesheet.clone(),
            rect: Rect::new(col * fw, 0, fw, fh),
            anchor: Vec2::new(ax, ay),
        };
        r.push(s);
        k = k + 1;
    }
    r
}

/// The sprite of a character frame at column `col` and row `row` of a
/// character sheet (16 by 32 pixel frames, anchored at the feet).
pub open spec fn character_frame(sheet: Seq<char>, col: u32, row: u32, s: Sprite) -> bool {
    &&& s.spritesheet@ == sheet
    &&& s.rect.x == col * 16
    &&& s.rect.y == row * 32
    &&& s.rect.width == 16
    &&& s.rect.height == 32
    &&& s.anchor.x == 8
    &&& s.anchor.y == 29
}

/// The sprites of the frames (column, row) of a character sheet, in order.
pub fn character_sprites(spritesheet: &String, frames: &Vec<(u32, u32)>) -> (r: Vec<Sprite>)
    requires
        forall|k: int| 0 <= k < frames@.len() ==> (#[trigger] frames@[k]).0 * 16 <= u32::MAX && frames@[k].1 * 32 <= u32::MAX,
    ensures
        r@.len() == frames@.len(),
        forall|k: int| 0 <= k < r@.len() ==> character_frame(spritesheet@, frames@[k].0, frames@[k].1, #[trigger] r@[k]),
{
    let mut r: Vec<Sprite> = Vec::new();
    let mut k: usize = 0;
    while k < frames.len()
        invariant
            k <= frames@.len(),
            forall|k: int| 0 <= k < frames@.len() ==> (#[trigger] frames@[k]).0 * 16 <= u32::MAX && frames@[k].1 * 32 <= u32::MAX,
            r@.len() == k,
            forall|j: int| 0 <= j < k ==> character_frame(spritesheet@, frames@[j].0, frames@[j].1, #[trigger] r@[j]),
        decreases frames@.len() - k,
    {
        let (col, row) = frames[k];
        assert(frames@[k as int].0 * 16 <= u32::MAX);
        let s = Sprite {
            spritesheet: spritesheet.clone(),
            rect: Rect::new(col * 16, row * 32, 16, 32),
            anchor: Vec2::new(8, 29),
        };
        r.push(s);
        k = k + 1;
    }
    r
}

/// Where an LDtk entity is placed: on the world's single map (at its pixel
/// position in the world) when the world is one map, else on its level's
/// map (at its pixel position in the level). Pixels are turned into map
/// units by the caller.
pub fn entity_placement(
    world_is_one_map: bool,
    world_identifier: &String,
    level_identifier: &String,
    level_world_x: i64,
    level_world_y: i64,
    px: &Vec<i64>,
) -> (r: (String, i64, i64))
    requires
        px@.len() >= 2,
        world_is_one_map ==> i64::MIN <= px@[0] + level_world_x <= i64::MAX,
        world_is_one_map ==> i64::MIN <= px@[1] + level_world_y <= i64::MAX,
    ensures
        world_is_one_map ==> r.0@ == world_identifier@ && r.1 == px@[0] + level_world_x && r.2 == px@[1] + level_world_y,
        !world_is_one_map ==> r.0@ == level_identifier@ && r.1 == px@[0] && r.2 == px@[1],
{
    if world_is_one_map {
        (world_identifier.clone(), px[0] + level_world_x, px[1] + level_world_y)
    } else {
        (level_identifier.clone(), px[0], px[1])
    }
}


/// Each LDtk identifier names the entity kind of the same name and nothing
/// else: `"generic"`, `"simple_script"`, `"simple_anim"`,
/// `"dual_state_anim"` and `"character"` name the generic, simple-script,
/// simple-animation, two-state-animation and character kinds, and every
/// other identifier names no kind.
pub proof fn law_identifiers_name_their_kinds(id: Seq<char>)
    ensures
        (entity_kind_named(id) == Some(LdtkEntityKind::Generic)) == (id == "generic"@),
        (entity_kind_named(id) == Some(LdtkEntityKind::SimpleScript)) == (id == "simple_script"@),
        (entity_kind_named(id) == Some(LdtkEntityKind::SimpleAnim)) == (id == "simple_anim"@),
        (entity_kind_named(id) == Some(LdtkEntityKind::DualStateAnim)) == (id == "dual_state_anim"@),
        (entity_kind_named(id) == Some(LdtkEntityKind::Character)) == (id == "character"@),
        (entity_kind_named(id) is None) == (id != "generic"@ && id != "simple_script"@ && id != "simple_anim"@
            && id != "dual_state_anim"@ && id != "character"@),
{
    reveal_strlit("generic");
    reveal_strlit("simple_script");
    reveal_strlit("simple_anim");
    reveal_strlit("dual_state_anim");
    reveal_strlit("character");
    assert("generic"@.len() == 7);
    assert("simple_script"@.len() == 13);
    assert("simple_anim"@.len() == 11);
    assert("dual_state_anim"@.len() == 15);
    assert("character"@.len() == 9);
}


/// A source name `FILE::LABEL` is split at its `::`: it names the script
/// `LABEL` of the file `data/FILE.lua`, whatever the label holds (the file
/// part holds no `::` and does not end with `:`, so the first `::` is the one
/// after it); a name with no `::` names no script.
pub proof fn law_source_name_splits(file: Seq<char>, label: Seq<char>, plain: Seq<char>)
    requires
        find_spec(file, "::"@, 0) is None,
        file.len() == 0 || file.last() != ':',
    ensures
        external_source_spec(file + "::"@ + label) == Some(("data/"@ + file + ".lua"@, label)),
        find_spec(plain, "::"@, 0) is None ==> external_source_spec(plain) is None,
{
    reveal_strlit("::");
    let sep = "::"@;
    let name = file + sep + label;
    let l = file.len() as int;
    assert(name.subrange(l, l + 2) =~= sep);
    assert(occurs_at(name, sep, l));
    assert(find_spec(name, sep, 0) is Some) by {
        reveal(find_spec);
    }
    assert(!exists|i: int| 0 <= i && occurs_at(file, sep, i)) by {
        reveal(find_spec);
    }
    assert forall|k: int| 0 <= k < l implies !occurs_at(name, sep, k) by {
        if k + 2 <= l {
            assert(name.subrange(k, k + 2) =~= file.subrange(k, k + 2));
            assert(!occurs_at(file, sep, k));
        } else {
            assert(k == l - 1);
            assert(name[k] == file.last());
            assert(name.subrange(k, k + 2)[0] == name[k]);
        }
    }
    lemma_find_spec_first(name, sep, 0);
    let r = find_spec(name, sep, 0)->0;
    assert(r == l);
    assert(name.subrange(0, l) =~= file);
    assert(name.subrange(l + 2, name.len() as int) =~= label);
}

/// The frames of a strip lie side by side in its one row: the frame of
/// column `col` starts `col` frame widths from the left edge, is `w` by `h`
/// pixels, and is anchored at its centre; the frame of the next column
/// starts where this one ends.
pub proof fn law_strip_frames_side_by_side(sheet: Seq<char>, col: u32, w: i64, h: i64, s: Sprite, next: Sprite)
    requires
        0 < w <= i32::MAX,
        0 < h <= i32::MAX,
        strip_frame(sheet, col, w, h, s),
        strip_frame(sheet, (col + 1) as u32, w, h, next),
        col + 1 <= u32::MAX,
    ensures
        s.rect.x == col * s.rect.width,
        s.rect.y == 0,
        s.rect.width == w && s.rect.height == h,
        s.anchor.x * 2 <= s.rect.width < s.anchor.x * 2 + 2,
        s.anchor.y * 2 <= s.rect.height < s.anchor.y * 2 + 2,
        next.rect.x == s.rect.x + s.rect.width,
        next.rect.y == s.rect.y,
{
    assert((col + 1) * w == col * w + w) by (nonlinear_arith);
}

/// Character frames lie on a grid of equal cells: the frame at (`col`,
/// `row`) starts `col` frame widths from the left and `row` frame heights
/// from the top, and is anchored at its horizontal centre, low in the frame
/// (at the character's feet).
pub proof fn law_character_frames_on_grid(sheet: Seq<char>, col: u32, row: u32, s: Sprite)
    requires
        character_frame(sheet, col, row, s),
    ensures
        s.rect.x == col * s.rect.width,
        s.rect.y == row * s.rect.height,
        s.anchor.x * 2 == s.rect.width,
        s.rect.height * 3 / 4 < s.anchor.y < s.rect.height,
{
}

} // verus!
