//! Album-art-reactive theming: which colors of a cover's palette take which part in a theme.
//!
//!   * the **dominant** swatch sets the hue of the surfaces, the text and the borders;
//!   * the most **vibrant** swatch becomes `primary`, the most **hue-distant** vivid swatch
//!     becomes `accent`;
//!   * status colors snap to the nearest swatch of the right hue when one exists, otherwise
//!     fall back to a synthesized tone.
//!
//! Measures of a color (vibrance, distance of hues) are floating-point numbers; here each stands
//! as its [`order_key`], an integer that orders as the measure does.

use vstd::prelude::*;

verus! {

/// A color of eight bits a channel.
#[derive(Debug, Clone, Copy, PartialEq, Eq, Structural)]
pub struct Rgb {
    pub r: u8,
    pub g: u8,
    pub b: u8,
}

/// The shades of one hue for text, backgrounds and borders.
#[derive(Debug, Clone, Copy, PartialEq, Eq, Structural)]
pub struct Surface {
    pub text: Rgb,
    pub text_muted: Rgb,
    pub background: Rgb,
    pub background_panel: Rgb,
    pub background_element: Rgb,
    pub border: Rgb,
    pub border_subtle: Rgb,
    pub border_dimmest: Rgb,
}

/// A color of the palette, with what the choice of its part depends on.
#[derive(Debug)]
pub struct Swatch {
    /// The color, adjusted to read on a dark surface.
    pub tone: Rgb,
    /// The key of its vibrance.
    pub vibrance: i32,
    /// The key of the distance of its hue from the hue of each swatch of the palette.
    pub distances: Vec<i32>,
    /// The shades of its hue.
    pub surface: Surface,
    /// The key of the distance of its hue from that of an error.
    pub error: i32,
    /// The key of the distance of its hue from that of a warning.
    pub warning: i32,
    /// The key of the distance of its hue from that of a success.
    pub success: i32,
}

/// The status colors for a palette without a swatch of the right hue.
#[derive(Debug, Clone, Copy, PartialEq, Eq, Structural)]
pub struct Fallbacks {
    pub error: Rgb,
    pub warning: Rgb,
    pub success: Rgb,
}

/// A status color.
#[derive(Debug, Clone, Copy, PartialEq, Eq, Structural)]
pub enum Status {
    Error,
    Warning,
    Success,
}

/// A complete set of semantic colors.
#[derive(Debug, Clone, Copy)]
pub struct Theme {
    pub name: &'static str,
    pub primary: Rgb,
    pub secondary: Rgb,
    pub accent: Rgb,
    pub error: Rgb,
    pub warning: Rgb,
    pub success: Rgb,
    pub info: Rgb,
    pub text: Rgb,
    pub text_muted: Rgb,
    pub background: Rgb,
    pub background_panel: Rgb,
    pub background_element: Rgb,
    pub border: Rgb,
    pub border_active: Rgb,
    pub border_subtle: Rgb,
    pub border_dimmest: Rgb,
}

/// The place of a floating-point number, given by its bits, in the total order of such numbers:
/// the bits themselves without a sign, and counting down from -1 with one.
pub open spec fn key_of_bits(bits: u32) -> int {
    if bits < 0x8000_0000 {
        bits as int
    } else {
        -(bits - 0x8000_0000) - 1
    }
}

/// The integer that stands for a 32-bit floating-point number, given by its bits, in comparisons.
pub fn order_key(bits: u32) -> (key: i32)
    ensures
        key as int == key_of_bits(bits),
{
    if bits < 0x8000_0000 {
        bits as i32
    } else {
        -((bits - 0x8000_0000) as i32) - 1
    }
}

/// Different numbers have different keys; among numbers without a sign the greater has the
/// greater key, among numbers with one the greater in magnitude has the smaller, and a number
/// with a sign comes before any without.
pub proof fn keys_follow_the_total_order(a: u32, b: u32)
    ensures
        a != b ==> key_of_bits(a) != key_of_bits(b),
        a < b < 0x8000_0000 ==> key_of_bits(a) < key_of_bits(b),
        0x8000_0000 <= a < b ==> key_of_bits(a) > key_of_bits(b),
        a < 0x8000_0000 <= b ==> key_of_bits(b) < key_of_bits(a),
{
}

/// The keys of positive and of negative infinity; a key beyond them is that of no number.
pub const INFINITY_KEY: i32 = 0x7f80_0000;

pub const NEGATIVE_INFINITY_KEY: i32 = -0x7f80_0001;

/// The key of the vibrance that an accent has to exceed, twelve hundredths.
pub const VIVID_KEY: i32 = 0x3df5_c28f;

/// The keys of the greatest distances at which a swatch's hue still serves for an error, a
/// warning and a success: 35, 30 and 40 degrees.
pub const ERROR_REACH_KEY: i32 = 0x420c_0000;

pub const WARNING_REACH_KEY: i32 = 0x41f0_0000;

pub const SUCCESS_REACH_KEY: i32 = 0x4220_0000;

impl Swatch {
    /// Whether it is vibrant enough for an accent.
    pub open spec fn is_vivid(self) -> bool {
        VIVID_KEY < self.vibrance <= INFINITY_KEY
    }

    /// The key of the distance of its hue from that of a status.
    pub open spec fn distance_to(self, status: Status) -> i32 {
        match status {
            Status::Error => self.error,
            Status::Warning => self.warning,
            Status::Success => self.success,
        }
    }

    /// Whether its hue is near enough to that of a status.
    pub open spec fn serves(self, status: Status) -> bool {
        NEGATIVE_INFINITY_KEY <= self.distance_to(status) <= reach(status)
    }
}

/// The key of the greatest distance at which a hue serves for a status.
pub open spec fn reach(status: Status) -> i32 {
    match status {
        Status::Error => ERROR_REACH_KEY,
        Status::Warning => WARNING_REACH_KEY,
        Status::Success => SUCCESS_REACH_KEY,
    }
}

/// Whether `a` ranks before `b`: by the greater key, then by the smaller index.
pub open spec fn ranks_before(keys: Seq<i32>, a: int, b: int) -> bool {
    keys[a] > keys[b] || (keys[a] == keys[b] && a < b)
}

/// Whether `order` lists all the indices of `keys`, each before those that it ranks before.
pub open spec fn is_ranking(order: Seq<int>, keys: Seq<i32>) -> bool {
    &&& order.len() == keys.len()
    &&& forall|a: int| 0 <= a < order.len() ==> 0 <= #[trigger] order[a] < keys.len()
    &&& forall|i: int| 0 <= i < keys.len() ==> #[trigger] order.contains(i)
    &&& forall|a: int, b: int|
        0 <= a < b < order.len() ==> ranks_before(keys, #[trigger] order[a], #[trigger] order[b])
}

/// The indices of `keys` from the greatest key to the smallest, equal keys in their own order.
pub open spec fn ranking(keys: Seq<i32>) -> Seq<int> {
    choose|order: Seq<int>| is_ranking(order, keys)
}

/// There is only one ranking.
pub proof fn ranking_is_unique(order: Seq<int>, keys: Seq<i32>)
    requires
        is_ranking(order, keys),
    ensures
        ranking(keys) == order,
{
    let other = ranking(keys);
    assert(is_ranking(other, keys));
    assert forall|a: int| 0 <= a < order.len() implies order[a] == other[a] by {
        lemma_rankings_agree(order, other, keys, a);
    }
    assert(other =~= order);
}

proof fn lemma_rankings_agree(order: Seq<int>, other: Seq<int>, keys: Seq<i32>, at: int)
    requires
        is_ranking(order, keys),
        is_ranking(other, keys),
        0 <= at < order.len(),
    ensures
        order[at] == other[at],
    decreases at,
{
    if order[at] != other[at] {
        assert(other.contains(order[at]));
        assert(order.contains(other[at]));
        let c = choose|c: int| 0 <= c < other.len() && other[c] == order[at];
        let b = choose|b: int| 0 <= b < order.len() && order[b] == other[at];
        if c < at {
            lemma_rankings_agree(order, other, keys, c);
            assert(ranks_before(keys, order[c], order[at]));
        } else if b < at {
            lemma_rankings_agree(order, other, keys, b);
            assert(ranks_before(keys, other[b], other[at]));
        } else {
            assert(ranks_before(keys, other[at], other[c]));
            assert(ranks_before(keys, order[at], order[b]));
        }
    }
}

/// The vibrance keys of a palette.
pub open spec fn vibrances(swatches: Seq<Swatch>) -> Seq<i32> {
    swatches.map_values(|s: Swatch| s.vibrance)
}

/// The most hue-distant vivid swatch from `primary` among those at the places `1..upto` of
/// `order`; of equally distant ones the last.
pub open spec fn most_distant(
    swatches: Seq<Swatch>,
    order: Seq<int>,
    primary: int,
    upto: int,
) -> Option<int>
    decreases upto,
{
    if upto <= 1 {
        None
    } else {
        let best = most_distant(swatches, order, primary, upto - 1);
        let next = order[upto - 1];
        if swatches[next].is_vivid() && (best is None || swatches[best->0].distances@[primary]
            <= swatches[next].distances@[primary]) {
            Some(next)
        } else {
            best
        }
    }
}

/// The swatch among the first `upto` whose hue is nearest to that of a status, of those near
/// enough; of equally near ones the first.
pub open spec fn nearest(swatches: Seq<Swatch>, status: Status, upto: int) -> Option<int>
    decreases upto,
{
    if upto <= 0 {
        None
    } else {
        let best = nearest(swatches, status, upto - 1);
        let next = swatches[upto - 1];
        if next.serves(status) && (best is None || next.distance_to(status)
            < swatches[best->0].distance_to(status)) {
            Some(upto - 1)
        } else {
            best
        }
    }
}

/// The tone of the nearest swatch of the right hue, or the fallback.
pub open spec fn status_color(swatches: Seq<Swatch>, status: Status, fallback: Rgb) -> Rgb {
    match nearest(swatches, status, swatches.len() as int) {
        Some(i) => swatches[i].tone,
        None => fallback,
    }
}

/// The place of the primary color: first by vibrance.
pub open spec fn primary_of(swatches: Seq<Swatch>) -> int {
    ranking(vibrances(swatches))[0]
}

/// The place of the accent color: the most hue-distant vivid swatch, or the primary.
pub open spec fn accent_of(swatches: Seq<Swatch>) -> int {
    let order = ranking(vibrances(swatches));
    match most_distant(swatches, order, primary_of(swatches), swatches.len() as int) {
        Some(i) => i,
        None => primary_of(swatches),
    }
}

/// The place of the secondary color: third by vibrance, or the accent.
pub open spec fn secondary_of(swatches: Seq<Swatch>) -> int {
    if swatches.len() > 2 {
        ranking(vibrances(swatches))[2]
    } else {
        accent_of(swatches)
    }
}

/// The theme of a palette.
pub open spec fn theme_of(swatches: Seq<Swatch>, fallbacks: Fallbacks, name: &'static str) -> Theme {
    let primary = swatches[primary_of(swatches)].tone;
    let surface = swatches[0].surface;
    Theme {
        name,
        primary,
        secondary: swatches[secondary_of(swatches)].tone,
        accent: swatches[accent_of(swatches)].tone,
        error: status_color(swatches, Status::Error, fallbacks.error),
        warning: status_color(swatches, Status::Warning, fallbacks.warning),
        success: status_color(swatches, Status::Success, fallbacks.success),
        info: primary,
        text: surface.text,
        text_muted: surface.text_muted,
        background: surface.background,
        background_panel: surface.background_panel,
        background_element: surface.background_element,
        border: surface.border,
        border_active: primary,
        border_subtle: surface.border_subtle,
        border_dimmest: surface.border_dimmest,
    }
}

/// Whether every swatch has a distance to every swatch.
pub open spec fn is_palette(swatches: Seq<Swatch>) -> bool {
    forall|i: int|
        0 <= i < swatches.len() ==> (#[trigger] swatches[i]).distances@.len() == swatches.len()
}

/// The indices of a palette by falling vibrance.
fn rank(swatches: &Vec<Swatch>) -> (order: Vec<usize>)
    ensures
        is_ranking(order@.map_values(|i: usize| i as int), vibrances(swatches@)),
{
    let ghost keys = vibrances(swatches@);
    let mut order: Vec<usize> = Vec::new();
    let mut i: usize = 0;
    while i < swatches.len()
        invariant
            i <= swatches@.len(),
            keys == vibrances(swatches@),
            order@.len() == i,
            forall|a: int| 0 <= a < i ==> #[trigger] order@[a] < i,
            forall|j: usize| j < i ==> #[trigger] order@.contains(j),
            forall|a: int, b: int|
                0 <= a < b < i ==> ranks_before(
                    keys,
                    #[trigger] order@[a] as int,
                    #[trigger] order@[b] as int,
                ),
        decreases swatches@.len() - i,
    {
        let vibrance: i32 = swatches[i].vibrance;
        let mut at: usize = 0;
        while at < order.len() && swatches[order[at]].vibrance >= vibrance
            invariant
                i < swatches@.len(),
                at <= order@.len() == i,
                keys == vibrances(swatches@),
                vibrance == keys[i as int],
                forall|a: int| 0 <= a < i ==> #[trigger] order@[a] < i,
                forall|a: int| 0 <= a < at ==> keys[#[trigger] order@[a] as int] >= vibrance,
            decreases order@.len() - at,
        {
            at += 1;
        }
        let ghost before = order@;
        order.insert(at, i);
        assert(order@ == before.insert(at as int, i));
        assert forall|j: usize| j < i + 1 implies #[trigger] order@.contains(j) by {
            if j == i {
                assert(order@[at as int] == j);
            } else {
                assert(before.contains(j));
                let a = choose|a: int| 0 <= a < before.len() && before[a] == j;
                assert(order@[if a < at { a } else { a + 1 }] == j);
            }
        }
        assert forall|a: int, b: int| 0 <= a < b < i + 1 implies ranks_before(
            keys,
            #[trigger] order@[a] as int,
            #[trigger] order@[b] as int,
        ) by {
            let old_a = if a < at { a } else { a - 1 };
            let old_b = if b < at { b } else { b - 1 };
            if a == at {
                // The stopping place holds a smaller key, and so does everything after it.
                assert(order@[b] == before[old_b]);
                if old_b > at {
                    assert(ranks_before(keys, before[at as int] as int, before[old_b] as int));
                }
            } else if b == at {
                assert(order@[a] == before[a]);
            } else {
                assert(order@[a] == before[old_a] && order@[b] == before[old_b]);
                assert(ranks_before(keys, before[old_a] as int, before[old_b] as int));
            }
        }
        i += 1;
    }
    let ghost places = order@.map_values(|i: usize| i as int);
    assert forall|j: int| 0 <= j < keys.len() implies #[trigger] places.contains(j) by {
        assert(order@.contains(j as usize));
        let a = choose|a: int| 0 <= a < order@.len() && order@[a] == j as usize;
        assert(places[a] == j);
    }
    order
}

/// Whether a swatch is vibrant enough for an accent.
fn vivid(swatch: &Swatch) -> (yes: bool)
    ensures
        yes == swatch.is_vivid(),
{
    VIVID_KEY < swatch.vibrance && swatch.vibrance <= INFINITY_KEY
}

/// The most hue-distant vivid swatch from the first of `order` among the others.
fn pick_accent(swatches: &Vec<Swatch>, order: &Vec<usize>) -> (accent: Option<usize>)
    requires
        is_palette(swatches@),
        swatches@.len() > 0,
        is_ranking(order@.map_values(|i: usize| i as int), vibrances(swatches@)),
    ensures
        match most_distant(
            swatches@,
            order@.map_values(|i: usize| i as int),
            order@[0] as int,
            swatches@.len() as int,
        ) {
            Some(i) => accent is Some && accent->0 as int == i && 0 <= i < swatches@.len(),
            None => accent is None,
        },
{
    let ghost places = order@.map_values(|i: usize| i as int);
    assert(forall|a: int| 0 <= a < order@.len() ==> places[a] == #[trigger] order@[a] as int);
    let primary: usize = order[0];
    let mut best: Option<usize> = None;
    let mut k: usize = 1;
    while k < order.len()
        invariant
            1 <= k <= order@.len() == swatches@.len(),
            is_palette(swatches@),
            places == order@.map_values(|i: usize| i as int),
            forall|a: int| 0 <= a < order@.len() ==> places[a] == #[trigger] order@[a] as int,
            forall|a: int| 0 <= a < order@.len() ==> #[trigger] order@[a] < swatches@.len(),
            primary == order@[0],
            match most_distant(swatches@, places, primary as int, k as int) {
                Some(i) => best is Some && best->0 as int == i && 0 <= i < swatches@.len(),
                None => best is None,
            },
        decreases order@.len() - k,
    {
        let next: usize = order[k];
        assert(places[k as int] == next as int);
        if vivid(&swatches[next]) {
            let farther = match best {
                None => true,
                Some(b) => swatches[b].distances[primary] <= swatches[next].distances[primary],
            };
            if farther {
                best = Some(next);
            }
        }
        k += 1;
    }
    best
}

/// The swatch whose hue is nearest to that of a status, of those near enough.
pub fn nearest_hue(swatches: &Vec<Swatch>, status: Status) -> (found: Option<usize>)
    ensures
        match nearest(swatches@, status, swatches@.len() as int) {
            Some(i) => found is Some && found->0 as int == i && 0 <= i < swatches@.len(),
            None => found is None,
        },
{
    let mut best: Option<usize> = None;
    let mut i: usize = 0;
    while i < swatches.len()
        invariant
            i <= swatches@.len(),
            match nearest(swatches@, status, i as int) {
                Some(k) => best is Some && best->0 as int == k && 0 <= k < i,
                None => best is None,
            },
        decreases swatches@.len() - i,
    {
        let distance: i32 = distance_to(&swatches[i], status);
        if NEGATIVE_INFINITY_KEY <= distance && distance <= reach_of(status) {
            let nearer = match best {
                None => true,
                Some(b) => distance < distance_to(&swatches[b], status),
            };
            if nearer {
                best = Some(i);
            }
        }
        i += 1;
    }
    best
}

/// The key of the distance of a swatch's hue from that of a status.
fn distance_to(swatch: &Swatch, status: Status) -> (key: i32)
    ensures
        key == swatch.distance_to(status),
{
    match status {
        Status::Error => swatch.error,
        Status::Warning => swatch.warning,
        Status::Success => swatch.success,
    }
}

/// The key of the greatest distance at which a hue serves for a status.
fn reach_of(status: Status) -> (key: i32)
    ensures
        key == reach(status),
{
    match status {
        Status::Error => ERROR_REACH_KEY,
        Status::Warning => WARNING_REACH_KEY,
        Status::Success => SUCCESS_REACH_KEY,
    }
}

/// The tone of the nearest swatch of the right hue, or the fallback.
fn snap(swatches: &Vec<Swatch>, status: Status, fallback: Rgb) -> (color: Rgb)
    ensures
        color == status_color(swatches@, status, fallback),
{
    match nearest_hue(swatches, status) {
        Some(i) => swatches[i].tone,
        None => fallback,
    }
}

/// The theme of a palette, whose first swatch is the dominant one.
pub fn theme_from_swatches(
    swatches: &Vec<Swatch>,
    fallbacks: &Fallbacks,
    name: &'static str,
) -> (theme: Theme)
    requires
        swatches@.len() > 0,
        is_palette(swatches@),
    ensures
        theme == theme_of(swatches@, *fallbacks, name),
{
    let order = rank(swatches);
    let ghost places = order@.map_values(|i: usize| i as int);
    proof {
        ranking_is_unique(places, vibrances(swatches@));
        assert(places[0] == order@[0] as int);
    }
    let primary_at: usize = order[0];
    let accent_at: usize = match pick_accent(swatches, &order) {
        Some(i) => i,
        None => primary_at,
    };
    let secondary_at: usize = if order.len() > 2 {
        assert(places[2] == order@[2] as int);
        order[2]
    } else {
        accent_at
    };
    let primary = swatches[primary_at].tone;
    let surface = swatches[0].surface;
    Theme {
        name,
        primary,
        secondary: swatches[secondary_at].tone,
        accent: swatches[accent_at].tone,
        error: snap(swatches, Status::Error, fallbacks.error),
        warning: snap(swatches, Status::Warning, fallbacks.warning),
        success: snap(swatches, Status::Success, fallbacks.success),
        info: primary,
        text: surface.text,
        text_muted: surface.text_muted,
        background: surface.background,
        background_panel: surface.background_panel,
        background_element: surface.background_element,
        border: surface.border,
        border_active: primary,
        border_subtle: surface.border_subtle,
        border_dimmest: surface.border_dimmest,
    }
}

/// The step in pixels with which a cover is sampled, and the most colors of its palette.
pub const PALETTE_QUALITY: u8 = 10;

pub const PALETTE_COLORS: u8 = 8;

/// The most bytes that the pixels of a cover may have.
pub const COVER_BYTES: usize = 766_958_400;

/// The palette that `color_thief::get_palette` extracts from the pixels of an image, three bytes
/// each, if it finds one.
pub uninterp spec fn extracted_palette(
    pixels: Seq<u8>,
    quality: u8,
    max_colors: u8,
) -> Option<Seq<Rgb>>;

/// `color_thief::get_palette` on RGB pixels: the palette of an image, of at most `max_colors`
/// colors, and `None` where it reports an error. The bound on the pixels keeps its 32-bit sums
/// over the sampled pixels from overflowing.
#[verifier::external_body]
fn get_palette(pixels: &[u8], quality: u8, max_colors: u8) -> (colors: Option<Vec<Rgb>>)
    requires
        1 <= quality <= 10,
        max_colors >= 2,
        pixels@.len() <= 76_695_840 * quality,
    ensures
        colors is Some <==> extracted_palette(pixels@, quality, max_colors) is Some,
        colors matches Some(list) ==> list@ == extracted_palette(pixels@, quality, max_colors)->0,
        colors matches Some(list) ==> list@.len() <= max_colors,
{
    match color_thief::get_palette(pixels, color_thief::ColorFormat::Rgb, quality, max_colors) {
        Ok(list) => Some(list.into_iter().map(|c| Rgb { r: c.r, g: c.g, b: c.b }).collect()),
        Err(_) => None,
    }
}

/// The palette that a theme can be made of: one with a color in it.
pub open spec fn usable(found: Option<Seq<Rgb>>) -> Option<Seq<Rgb>> {
    match found {
        Some(colors) => if colors.len() > 0 {
            Some(colors)
        } else {
            None
        },
        None => None,
    }
}

/// A palette, if one was found and it has a color in it.
pub fn usable_palette(found: Option<Vec<Rgb>>) -> (colors: Option<Vec<Rgb>>)
    ensures
        found matches Some(list) && list@.len() > 0 ==> colors == found,
        !(found matches Some(list) && list@.len() > 0) ==> colors is None,
{
    match found {
        Some(list) => if list.len() > 0 {
            Some(list)
        } else {
            None
        },
        None => None,
    }
}

/// The colors of a cover, the dominant one first, from its pixels of three bytes each; `None`
/// where none can be extracted and the theme stays the default one.
pub fn cover_palette(pixels: &[u8]) -> (colors: Option<Vec<Rgb>>)
    requires
        pixels@.len() <= COVER_BYTES,
    ensures
        colors is Some <==> usable(
            extracted_palette(pixels@, PALETTE_QUALITY, PALETTE_COLORS),
        ) is Some,
        colors matches Some(list) ==> list@ == usable(
            extracted_palette(pixels@, PALETTE_QUALITY, PALETTE_COLORS),
        )->0,
        colors matches Some(list) ==> 1 <= list@.len() <= PALETTE_COLORS,
        colors matches Some(list) ==> extracted_palette(pixels@, 10, 8) == Some(list@),
        colors is None ==> match extracted_palette(pixels@, 10, 8) {
            Some(found) => found.len() == 0,
            None => true,
        },
{
    usable_palette(get_palette(pixels, PALETTE_QUALITY, PALETTE_COLORS))
}

/// Every list of keys has a ranking.
pub proof fn ranking_exists(keys: Seq<i32>)
    ensures
        is_ranking(ranking(keys), keys),
    decreases keys.len(),
{
    if keys.len() == 0 {
        assert(is_ranking(seq![], keys));
    } else {
        let shorter = keys.drop_last();
        let last = keys.len() - 1;
        ranking_exists(shorter);
        let before = ranking(shorter);
        let at = lemma_insertion_place(before, keys, before.len() as int);
        let order = before.insert(at, last);
        assert forall|i: int| 0 <= i < keys.len() implies #[trigger] order.contains(i) by {
            if i == last {
                assert(order[at] == i);
            } else {
                assert(before.contains(i));
                let a = choose|a: int| 0 <= a < before.len() && before[a] == i;
                assert(order[if a < at { a } else { a + 1 }] == i);
            }
        }
        assert forall|a: int, b: int| 0 <= a < b < order.len() implies ranks_before(
            keys,
            #[trigger] order[a],
            #[trigger] order[b],
        ) by {
            let old_a = if a < at { a } else { a - 1 };
            let old_b = if b < at { b } else { b - 1 };
            if a == at {
                assert(order[b] == before[old_b]);
            } else if b == at {
                assert(order[a] == before[a]);
            } else {
                assert(order[a] == before[old_a] && order[b] == before[old_b]);
                assert(ranks_before(shorter, before[old_a], before[old_b]));
            }
        }
        assert(is_ranking(order, keys));
    }
}

/// The place up to which the ranked keys are no smaller than the last key of all.
proof fn lemma_insertion_place(before: Seq<int>, keys: Seq<i32>, upto: int) -> (at: int)
    requires
        keys.len() > 0,
        is_ranking(before, keys.drop_last()),
        0 <= upto <= before.len(),
        forall|a: int| upto <= a < before.len() ==> keys[#[trigger] before[a]] < keys.last(),
    ensures
        0 <= at <= upto,
        forall|a: int| 0 <= a < at ==> keys[#[trigger] before[a]] >= keys.last(),
        forall|a: int| at <= a < before.len() ==> keys[#[trigger] before[a]] < keys.last(),
    decreases upto,
{
    if upto > 0 && keys[before[upto - 1]] < keys.last() {
        lemma_insertion_place(before, keys, upto - 1)
    } else {
        assert forall|a: int| 0 <= a < upto implies keys[#[trigger] before[a]] >= keys.last() by {
            if a < upto - 1 {
                assert(ranks_before(keys.drop_last(), before[a], before[upto - 1]));
            }
        }
        upto
    }
}

/// No swatch is more vibrant than the primary one.
pub proof fn primary_is_most_vibrant(swatches: Seq<Swatch>, other: int)
    requires
        0 <= other < swatches.len(),
    ensures
        0 <= primary_of(swatches) < swatches.len(),
        swatches[other].vibrance <= swatches[primary_of(swatches)].vibrance,
{
    let keys = vibrances(swatches);
    let order = ranking(keys);
    ranking_exists(keys);
    assert(order.contains(other));
    let a = choose|a: int| 0 <= a < order.len() && order[a] == other;
    if a > 0 {
        assert(ranks_before(keys, order[0], order[a]));
    }
    assert(keys[other] == swatches[other].vibrance);
    assert(keys[order[0]] == swatches[order[0]].vibrance);
}

/// Where a swatch other than the primary is vivid, the accent is a vivid swatch other than the
/// primary, and none such is farther from the primary's hue.
pub proof fn accent_is_most_distant(swatches: Seq<Swatch>, other: int)
    requires
        0 <= other < swatches.len(),
        other != primary_of(swatches),
        swatches[other].is_vivid(),
    ensures
        0 <= accent_of(swatches) < swatches.len(),
        accent_of(swatches) != primary_of(swatches),
        swatches[accent_of(swatches)].is_vivid(),
        swatches[other].distances@[primary_of(swatches)]
            <= swatches[accent_of(swatches)].distances@[primary_of(swatches)],
{
    let keys = vibrances(swatches);
    let order = ranking(keys);
    ranking_exists(keys);
    assert(order.contains(other));
    let a = choose|a: int| 0 <= a < order.len() && order[a] == other;
    lemma_most_distant(swatches, order, primary_of(swatches), swatches.len() as int, a);
}

/// Where no swatch other than the primary is vivid, the accent is the primary.
pub proof fn accent_falls_back_to_primary(swatches: Seq<Swatch>)
    requires
        swatches.len() > 0,
        forall|i: int|
            0 <= i < swatches.len() && i != primary_of(swatches) ==> !(#[trigger] swatches[i]).is_vivid(),
    ensures
        accent_of(swatches) == primary_of(swatches),
{
    let keys = vibrances(swatches);
    let order = ranking(keys);
    ranking_exists(keys);
    lemma_no_distant(swatches, order, swatches.len() as int);
}

proof fn lemma_no_distant(swatches: Seq<Swatch>, order: Seq<int>, upto: int)
    requires
        is_ranking(order, vibrances(swatches)),
        upto <= swatches.len(),
        forall|i: int|
            0 <= i < swatches.len() && i != order[0] ==> !(#[trigger] swatches[i]).is_vivid(),
    ensures
        most_distant(swatches, order, order[0], upto) is None,
    decreases upto,
{
    if upto > 1 {
        lemma_no_distant(swatches, order, upto - 1);
        assert(ranks_before(vibrances(swatches), order[0], order[upto - 1]));
        assert(!swatches[order[upto - 1]].is_vivid());
    }
}

proof fn lemma_most_distant(
    swatches: Seq<Swatch>,
    order: Seq<int>,
    primary: int,
    upto: int,
    a: int,
)
    requires
        is_ranking(order, vibrances(swatches)),
        primary == order[0],
        1 <= a < upto <= swatches.len(),
        swatches[order[a]].is_vivid(),
    ensures
        most_distant(swatches, order, primary, upto) matches Some(i) && {
            &&& 0 <= i < swatches.len()
            &&& i != primary
            &&& swatches[i].is_vivid()
            &&& swatches[order[a]].distances@[primary] <= swatches[i].distances@[primary]
        },
    decreases upto,
{
    assert(ranks_before(vibrances(swatches), order[0], order[upto - 1]));
    if a < upto - 1 {
        lemma_most_distant(swatches, order, primary, upto - 1, a);
    } else {
        lemma_most_distant_is_swatch(swatches, order, primary, upto - 1);
    }
}

proof fn lemma_most_distant_is_swatch(
    swatches: Seq<Swatch>,
    order: Seq<int>,
    primary: int,
    upto: int,
)
    requires
        is_ranking(order, vibrances(swatches)),
        primary == order[0],
        upto <= swatches.len(),
    ensures
        most_distant(swatches, order, primary, upto) matches Some(i) ==> {
            &&& 0 <= i < swatches.len()
            &&& i != primary
            &&& swatches[i].is_vivid()
        },
    decreases upto,
{
    if upto > 1 {
        lemma_most_distant_is_swatch(swatches, order, primary, upto - 1);
        assert(ranks_before(vibrances(swatches), order[0], order[upto - 1]));
    }
}

/// Where a swatch's hue is near enough to that of a status, the status snaps to a swatch that is
/// near enough, and none is nearer.
pub proof fn status_snaps_to_nearest(swatches: Seq<Swatch>, status: Status, other: int)
    requires
        0 <= other < swatches.len(),
        swatches[other].serves(status),
    ensures
        nearest(swatches, status, swatches.len() as int) matches Some(i) && {
            &&& 0 <= i < swatches.len()
            &&& swatches[i].serves(status)
            &&& swatches[i].distance_to(status) <= swatches[other].distance_to(status)
        },
{
    lemma_nearest(swatches, status, swatches.len() as int, other);
}

proof fn lemma_nearest(swatches: Seq<Swatch>, status: Status, upto: int, other: int)
    requires
        0 <= other < upto <= swatches.len(),
        swatches[other].serves(status),
    ensures
        nearest(swatches, status, upto) matches Some(i) && {
            &&& 0 <= i < upto
            &&& swatches[i].serves(status)
            &&& swatches[i].distance_to(status) <= swatches[other].distance_to(status)
        },
    decreases upto,
{
    if other < upto - 1 {
        lemma_nearest(swatches, status, upto - 1, other);
    } else {
        lemma_nearest_is_swatch(swatches, status, upto - 1);
    }
}

proof fn lemma_nearest_is_swatch(swatches: Seq<Swatch>, status: Status, upto: int)
    requires
        upto <= swatches.len(),
    ensures
        nearest(swatches, status, upto) matches Some(i) ==> {
            &&& 0 <= i < upto
            &&& swatches[i].serves(status)
        },
    decreases upto,
{
    if upto > 0 {
        lemma_nearest_is_swatch(swatches, status, upto - 1);
    }
}

/// Where no swatch's hue is near enough to that of a status, the status takes its fallback.
pub proof fn status_falls_back(swatches: Seq<Swatch>, status: Status, fallback: Rgb)
    requires
        forall|i: int|
            0 <= i < swatches.len() ==> !(#[trigger] swatches[i]).serves(status),
    ensures
        status_color(swatches, status, fallback) == fallback,
{
    lemma_nearest_is_swatch(swatches, status, swatches.len() as int);
}

/// A swatch is vivid from above twelve hundredths of vibrance on, and its hue serves for an error,
/// a warning and a success up to a distance of 35, 30 and 40 degrees; what is no number does
/// neither.
pub proof fn limits_are_kept(swatch: Swatch)
    ensures
        swatch.is_vivid() <==> 0x3df5_c28f < swatch.vibrance <= 0x7f80_0000,
        swatch.serves(Status::Error) <==> -0x7f80_0001 <= swatch.error <= 0x420c_0000,
        swatch.serves(Status::Warning) <==> -0x7f80_0001 <= swatch.warning <= 0x41f0_0000,
        swatch.serves(Status::Success) <==> -0x7f80_0001 <= swatch.success <= 0x4220_0000,
        swatch.distance_to(Status::Error) == swatch.error,
        swatch.distance_to(Status::Warning) == swatch.warning,
        swatch.distance_to(Status::Success) == swatch.success,
{
}

/// The swatch that no other ranks before, by greater vibrance or by the same and an earlier place,
/// gives the primary color, the one for information and that of active borders.
pub proof fn most_vibrant_swatch_is_primary(
    swatches: Seq<Swatch>,
    fallbacks: Fallbacks,
    name: &'static str,
    first: int,
)
    requires
        0 <= first < swatches.len(),
        forall|i: int|
            0 <= i < swatches.len() && i != first ==> (#[trigger] swatches[i]).vibrance
                < swatches[first].vibrance || (swatches[i].vibrance == swatches[first].vibrance
                && first < i),
    ensures
        theme_of(swatches, fallbacks, name).primary == swatches[first].tone,
        theme_of(swatches, fallbacks, name).info == swatches[first].tone,
        theme_of(swatches, fallbacks, name).border_active == swatches[first].tone,
{
    lemma_first_is_primary(swatches, first);
}

proof fn lemma_first_is_primary(swatches: Seq<Swatch>, first: int)
    requires
        0 <= first < swatches.len(),
        forall|i: int|
            0 <= i < swatches.len() && i != first ==> (#[trigger] swatches[i]).vibrance
                < swatches[first].vibrance || (swatches[i].vibrance == swatches[first].vibrance
                && first < i),
    ensures
        primary_of(swatches) == first,
{
    let keys = vibrances(swatches);
    let order = ranking(keys);
    ranking_exists(keys);
    assert(order.contains(first));
    let a = choose|a: int| 0 <= a < order.len() && order[a] == first;
    if a > 0 {
        assert(ranks_before(keys, order[0], order[a]));
        assert(swatches[order[0]].vibrance == keys[order[0]]);
    }
}

/// In a palette of three swatches or more, the swatch that exactly two others rank before, by
/// greater vibrance or by the same and an earlier place, gives the secondary color; a smaller
/// palette has the accent in its place.
pub proof fn third_most_vibrant_swatch_is_secondary(
    swatches: Seq<Swatch>,
    fallbacks: Fallbacks,
    name: &'static str,
    one: int,
    two: int,
    third: int,
)
    requires
        swatches.len() > 2 ==> {
            &&& 0 <= one < swatches.len() && 0 <= two < swatches.len() && one != two
            &&& 0 <= third < swatches.len() && third != one && third != two
            &&& swatches[one].vibrance > swatches[third].vibrance || (swatches[one].vibrance
                == swatches[third].vibrance && one < third)
            &&& swatches[two].vibrance > swatches[third].vibrance || (swatches[two].vibrance
                == swatches[third].vibrance && two < third)
            &&& forall|i: int|
                0 <= i < swatches.len() && i != one && i != two && i != third ==> (
                #[trigger] swatches[i]).vibrance < swatches[third].vibrance || (
                swatches[i].vibrance == swatches[third].vibrance && third < i)
        },
    ensures
        swatches.len() > 2 ==> theme_of(swatches, fallbacks, name).secondary
            == swatches[third].tone,
        0 < swatches.len() <= 2 ==> theme_of(swatches, fallbacks, name).secondary == theme_of(
            swatches,
            fallbacks,
            name,
        ).accent,
{
    if swatches.len() > 2 {
        let keys = vibrances(swatches);
        let order = ranking(keys);
        ranking_exists(keys);
        assert(forall|i: int| 0 <= i < keys.len() ==> keys[i] == (#[trigger] swatches[i]).vibrance);
        assert(order.contains(one) && order.contains(two) && order.contains(third));
        let a = choose|a: int| 0 <= a < order.len() && order[a] == one;
        let b = choose|b: int| 0 <= b < order.len() && order[b] == two;
        let c = choose|c: int| 0 <= c < order.len() && order[c] == third;
        if c < a {
            assert(ranks_before(keys, order[c], order[a]));
        }
        if c < b {
            assert(ranks_before(keys, order[c], order[b]));
        }
        // Both stand before the third, and nothing else does.
        if c > 2 {
            assert(ranks_before(keys, order[0], order[c]));
            assert(ranks_before(keys, order[1], order[c]));
            assert(ranks_before(keys, order[2], order[c]));
            assert(ranks_before(keys, order[0], order[1]));
            assert(ranks_before(keys, order[0], order[2]));
            assert(ranks_before(keys, order[1], order[2]));
            assert(swatches[order[0]].vibrance == keys[order[0]]);
            assert(swatches[order[1]].vibrance == keys[order[1]]);
            assert(swatches[order[2]].vibrance == keys[order[2]]);
        }
        assert(c == 2);
    }
}

/// Of the vivid swatches other than the primary, the one whose hue is farthest from the primary's,
/// and of equally far ones the last by vibrance and place, gives the accent; without any it is
/// the primary.
pub proof fn farthest_vivid_swatch_is_accent(
    swatches: Seq<Swatch>,
    fallbacks: Fallbacks,
    name: &'static str,
    first: int,
    farthest: int,
)
    requires
        0 <= first < swatches.len(),
        forall|i: int|
            0 <= i < swatches.len() && i != first ==> (#[trigger] swatches[i]).vibrance
                < swatches[first].vibrance || (swatches[i].vibrance == swatches[first].vibrance
                && first < i),
    ensures
        0 <= farthest < swatches.len() && farthest != first && swatches[farthest].is_vivid() && (
        forall|i: int|
            0 <= i < swatches.len() && i != first && i != farthest && (
            #[trigger] swatches[i]).is_vivid() ==> swatches[i].distances@[first]
                < swatches[farthest].distances@[first] || (swatches[i].distances@[first]
                == swatches[farthest].distances@[first] && (swatches[i].vibrance
                > swatches[farthest].vibrance || (swatches[i].vibrance
                == swatches[farthest].vibrance && i < farthest)))) ==> theme_of(
            swatches,
            fallbacks,
            name,
        ).accent == swatches[farthest].tone,
        (forall|i: int|
            0 <= i < swatches.len() && i != first ==> !(#[trigger] swatches[i]).is_vivid())
            ==> theme_of(swatches, fallbacks, name).accent == swatches[first].tone,
{
    lemma_first_is_primary(swatches, first);
    let keys = vibrances(swatches);
    let order = ranking(keys);
    ranking_exists(keys);
    if forall|i: int|
        0 <= i < swatches.len() && i != first ==> !(#[trigger] swatches[i]).is_vivid() {
        accent_falls_back_to_primary(swatches);
    }
    if 0 <= farthest < swatches.len() && farthest != first && swatches[farthest].is_vivid() && (
    forall|i: int|
        0 <= i < swatches.len() && i != first && i != farthest && (
        #[trigger] swatches[i]).is_vivid() ==> swatches[i].distances@[first]
            < swatches[farthest].distances@[first] || (swatches[i].distances@[first]
            == swatches[farthest].distances@[first] && (swatches[i].vibrance
            > swatches[farthest].vibrance || (swatches[i].vibrance == swatches[farthest].vibrance
            && i < farthest)))) {
        assert(order.contains(farthest));
        let a = choose|a: int| 0 <= a < order.len() && order[a] == farthest;
        lemma_farthest(swatches, order, first, swatches.len() as int, a);
    }
}

proof fn lemma_farthest(swatches: Seq<Swatch>, order: Seq<int>, first: int, upto: int, a: int)
    requires
        is_ranking(order, vibrances(swatches)),
        first == order[0],
        1 <= a < upto <= swatches.len(),
        swatches[order[a]].is_vivid(),
        forall|i: int|
            0 <= i < swatches.len() && i != first && i != order[a] && (
            #[trigger] swatches[i]).is_vivid() ==> swatches[i].distances@[first]
                < swatches[order[a]].distances@[first] || (swatches[i].distances@[first]
                == swatches[order[a]].distances@[first] && (swatches[i].vibrance
                > swatches[order[a]].vibrance || (swatches[i].vibrance
                == swatches[order[a]].vibrance && i < order[a]))),
    ensures
        most_distant(swatches, order, first, upto) == Some(order[a]),
    decreases upto,
{
    let keys = vibrances(swatches);
    let next = order[upto - 1];
    assert(keys[next] == swatches[next].vibrance);
    assert(keys[order[a]] == swatches[order[a]].vibrance);
    assert(ranks_before(keys, order[0], next));
    if a < upto - 1 {
        lemma_farthest(swatches, order, first, upto - 1, a);
        assert(ranks_before(keys, order[a], next));
    } else {
        lemma_most_distant_is_swatch(swatches, order, first, upto - 1);
        lemma_most_distant_place(swatches, order, first, upto - 1);
        if let Some(best) = most_distant(swatches, order, first, upto - 1) {
            let b = choose|b: int| 1 <= b < upto - 1 && order[b] == best;
            assert(ranks_before(keys, order[b], next));
            assert(swatches[best].is_vivid());
        }
    }
}

proof fn lemma_most_distant_place(swatches: Seq<Swatch>, order: Seq<int>, first: int, upto: int)
    requires
        is_ranking(order, vibrances(swatches)),
        upto <= swatches.len(),
    ensures
        most_distant(swatches, order, first, upto) matches Some(best) ==> exists|b: int|
            1 <= b < upto && #[trigger] order[b] == best,
    decreases upto,
{
    if upto > 1 {
        lemma_most_distant_place(swatches, order, first, upto - 1);
        assert(order[upto - 1] == order[upto - 1]);
    }
}

/// Of the swatches whose hue serves for a status, the nearest, and of equally near ones the first,
/// gives the color of that status; where none serves it is the fallback.
pub proof fn nearest_serving_swatch_gives_the_status(
    swatches: Seq<Swatch>,
    fallbacks: Fallbacks,
    name: &'static str,
    status: Status,
    closest: int,
)
    ensures
        0 <= closest < swatches.len() && swatches[closest].serves(status) && (forall|i: int|
            0 <= i < swatches.len() && i != closest && (#[trigger] swatches[i]).serves(status)
                ==> swatches[i].distance_to(status) > swatches[closest].distance_to(status) || (
            swatches[i].distance_to(status) == swatches[closest].distance_to(status) && closest
                < i)) ==> {
            &&& nearest(swatches, status, swatches.len() as int) == Some(closest)
            &&& match status {
                Status::Error => theme_of(swatches, fallbacks, name).error,
                Status::Warning => theme_of(swatches, fallbacks, name).warning,
                Status::Success => theme_of(swatches, fallbacks, name).success,
            } == swatches[closest].tone
        },
        (forall|i: int| 0 <= i < swatches.len() ==> !(#[trigger] swatches[i]).serves(status)) ==> {
            &&& nearest(swatches, status, swatches.len() as int) is None
            &&& match status {
                Status::Error => theme_of(swatches, fallbacks, name).error
                    == fallbacks.error,
                Status::Warning => theme_of(swatches, fallbacks, name).warning
                    == fallbacks.warning,
                Status::Success => theme_of(swatches, fallbacks, name).success
                    == fallbacks.success,
            }
        },
{
    lemma_nearest_is_swatch(swatches, status, swatches.len() as int);
    if 0 <= closest < swatches.len() && swatches[closest].serves(status) && (forall|i: int|
        0 <= i < swatches.len() && i != closest && (#[trigger] swatches[i]).serves(status)
            ==> swatches[i].distance_to(status) > swatches[closest].distance_to(status) || (
        swatches[i].distance_to(status) == swatches[closest].distance_to(status) && closest < i)) {
        lemma_closest(swatches, status, swatches.len() as int, closest);
    }
}

proof fn lemma_closest(swatches: Seq<Swatch>, status: Status, upto: int, closest: int)
    requires
        0 <= closest < upto <= swatches.len(),
        swatches[closest].serves(status),
        forall|i: int|
            0 <= i < swatches.len() && i != closest && (#[trigger] swatches[i]).serves(status)
                ==> swatches[i].distance_to(status) > swatches[closest].distance_to(status) || (
            swatches[i].distance_to(status) == swatches[closest].distance_to(status) && closest
                < i),
    ensures
        nearest(swatches, status, upto) == Some(closest),
    decreases upto,
{
    if closest < upto - 1 {
        lemma_closest(swatches, status, upto - 1, closest);
    } else {
        lemma_nearest_is_swatch(swatches, status, upto - 1);
    }
}

/// The dominant swatch, which is the first, sets the shades of the text, of the backgrounds and of
/// the borders that are not active, and the theme has the name that it was given.
pub proof fn dominant_swatch_sets_the_surface(
    swatches: Seq<Swatch>,
    fallbacks: Fallbacks,
    name: &'static str,
)
    requires
        swatches.len() > 0,
    ensures
        ({
            let theme = theme_of(swatches, fallbacks, name);
            &&& theme.name == name
            &&& swatches[0].surface == (Surface {
                text: theme.text,
                text_muted: theme.text_muted,
                background: theme.background,
                background_panel: theme.background_panel,
                background_element: theme.background_element,
                border: theme.border,
                border_subtle: theme.border_subtle,
                border_dimmest: theme.border_dimmest,
            })
        }),
{
}

/// A palette with a color in it is used as it is; one without a color is none.
pub proof fn palette_with_a_color_is_used(colors: Seq<Rgb>, color: Rgb)
    ensures
        usable(Some(colors.push(color))) == Some(colors.push(color)),
        usable(Some(seq![])) is None,
        usable(None) is None,
{
}

} // verus!
