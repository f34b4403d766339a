//! The table of colors that were already matched, and the matching that
//! goes through it.

use std::collections::HashMap;
use vstd::prelude::*;
use vstd::rwlock::{RwLock, RwLockPredicate};
use crate::color::{convert_srgb, is_lab_of, palette_is_single_valued, Lab, Rgb8};
use crate::matching::{
    all_ordered, find_closest_color, is_closest, lemma_measured_once, measured, nearest,
};

verus! {

broadcast use vstd::std_specs::hash::group_hash_axioms;

/// The pixel's own color `own` recolored with the nearest palette color:
/// its lightness over the chroma of that color, or nothing where no palette
/// color is nearest.
pub open spec fn recolored(own: Lab, nearest: Option<Lab>) -> Option<Lab> {
    match nearest {
        Some(color) => Some(own.with_chroma_of(color)),
        None => None,
    }
}

/// `found` is what mapping the pixel to the palette may give: for some
/// L\*a\*b\* color of the pixel and some palette color found nearest to it,
/// the pixel's lightness over the chroma of that color; `None` where no
/// palette color was nearest.
pub open spec fn maps_to(pixel: Rgb8, colors: Seq<Lab>, found: Option<Lab>) -> bool {
    exists|own: Lab, nearest: Option<Lab>|
        #![trigger is_lab_of(pixel, own), is_closest(own, colors, nearest)]
        is_lab_of(pixel, own) && is_closest(own, colors, nearest) && found == recolored(
            own,
            nearest,
        )
}

/// The three channels of a pixel in one number.
spec fn key_of(pixel: Rgb8) -> u32 {
    (pixel.red * 65536 + pixel.green * 256 + pixel.blue) as u32
}

proof fn lemma_keys_differ(p: Rgb8, q: Rgb8)
    ensures
        key_of(p) == key_of(q) <==> p == q,
{
}

fn key(pixel: Rgb8) -> (k: u32)
    ensures
        k == key_of(pixel),
{
    (pixel.red as u32) * 65536 + (pixel.green as u32) * 256 + (pixel.blue as u32)
}

/// Remembers, for each pixel color seen so far, the color it was mapped to.
/// Entries are only ever added.
pub struct ColorCache {
    entries: HashMap<u32, Lab>,
}

impl View for ColorCache {
    type V = Map<Rgb8, Lab>;

    closed spec fn view(&self) -> Map<Rgb8, Lab> {
        Map::new(
            |p: Rgb8| self.entries@.contains_key(key_of(p)),
            |p: Rgb8| self.entries@[key_of(p)],
        )
    }
}

/// Every remembered color is one that mapping under `colors` gives.
pub open spec fn agrees(table: Map<Rgb8, Lab>, colors: Seq<Lab>) -> bool {
    forall|p: Rgb8| #[trigger] table.contains_key(p) ==> maps_to(p, colors, Some(table[p]))
}

impl ColorCache {
    /// A table that remembers nothing yet.
    pub fn new() -> (cache: ColorCache)
        ensures
            cache@ == Map::<Rgb8, Lab>::empty(),
    {
        let cache = ColorCache { entries: HashMap::new() };
        assert(cache@ =~= Map::<Rgb8, Lab>::empty());
        cache
    }

    /// Every remembered color is one that mapping under `colors` gives.
    pub open spec fn agrees_with(&self, colors: Seq<Lab>) -> bool {
        agrees(self@, colors)
    }

    /// Looks a pixel color up.
    pub fn get(&self, pixel: Rgb8) -> (found: Option<Lab>)
        ensures
            found == (if self@.contains_key(pixel) {
                Some(self@[pixel])
            } else {
                None
            }),
    {
        match self.entries.get(&key(pixel)) {
            Some(color) => Some(*color),
            None => None,
        }
    }

    /// Remembers `color` for `pixel`, in place of what was remembered for it.
    pub fn insert(&mut self, pixel: Rgb8, color: Lab)
        ensures
            final(self)@ == old(self)@.insert(pixel, color),
    {
        self.entries.insert(key(pixel), color);
        proof {
            assert forall|q: Rgb8| key_of(q) == key_of(pixel) <==> q == pixel by {
                lemma_keys_differ(q, pixel);
            }
            assert(self@ =~= old(self)@.insert(pixel, color));
        }
    }
}

/// What a shared table is locked with: whatever it remembers agrees with
/// this palette.
pub struct Agreement {
    pub colors: Seq<Lab>,
}

impl RwLockPredicate<ColorCache> for Agreement {
    open spec fn inv(self, table: ColorCache) -> bool {
        table.agrees_with(self.colors)
    }
}

/// A table for one palette that many workers read and fill at once. The
/// table is locked for one lookup or one insertion at a time.
pub struct SharedColorCache {
    lock: RwLock<ColorCache, Agreement>,
}

impl SharedColorCache {
    /// The palette that the table was made for.
    pub closed spec fn palette(&self) -> Seq<Lab> {
        self.lock.pred().colors
    }

    /// A table for `colors` that remembers nothing yet.
    pub fn new(colors: &[Lab]) -> (cache: SharedColorCache)
        ensures
            cache.palette() == colors@,
    {
        let table = ColorCache::new();
        SharedColorCache { lock: RwLock::new(table, Ghost(Agreement { colors: colors@ })) }
    }

    /// Looks a pixel color up. What is found is a color that the pixel is
    /// mapped to under the palette of the table.
    pub fn get(&self, pixel: Rgb8) -> (found: Option<Lab>)
        ensures
            found matches Some(color) ==> maps_to(pixel, self.palette(), Some(color)),
    {
        let handle = self.lock.acquire_read();
        let found = handle.borrow().get(pixel);
        handle.release_read();
        found
    }

    /// Remembers for `pixel` a color that it is mapped to.
    fn insert(&self, pixel: Rgb8, color: Lab)
        requires
            maps_to(pixel, self.palette(), Some(color)),
    {
        let (mut table, handle) = self.lock.acquire_write();
        table.insert(pixel, color);
        handle.release_write(table);
    }
}

/// Maps a pixel to the palette through the shared table. A color that the
/// table remembers is returned without measuring anything. Otherwise the
/// pixel is converted to L\*a\*b\*, the nearest palette color is found, and
/// the pixel's lightness over that color's chroma is remembered and
/// returned. The table is not locked while the nearest color is searched, so
/// two workers may both search for the same pixel and both remember what
/// they found.
///
/// With a palette of one color a color is always returned.
pub fn memoized_find_closest_color(
    color_map: &SharedColorCache,
    pixel: Rgb8,
    colors: &[Lab],
) -> (found: Option<Lab>)
    requires
        colors@.len() > 0,
        color_map.palette() == colors@,
    ensures
        maps_to(pixel, colors@, found),
        colors@.len() == 1 ==> found is Some,
{
    if let Some(color) = color_map.get(pixel) {
        return Some(color);
    }
    let original_lab = convert_srgb(pixel);
    match find_closest_color(&original_lab, colors) {
        Some(closest) => {
            let colorized = original_lab.with_chroma(*closest);
            assert(is_lab_of(pixel, original_lab) && is_closest(
                original_lab,
                colors@,
                Some(*closest),
            ));
            color_map.insert(pixel, colorized);
            Some(colorized)
        },
        None => {
            assert(is_lab_of(pixel, original_lab) && is_closest(original_lab, colors@, None));
            None
        },
    }
}

/// A pixel is left without a color only where the palette has two or more
/// colors and a measured difference is a NaN: with a palette of one color
/// every pixel is mapped.
pub proof fn lemma_unmapped_needs_two_colors(pixel: Rgb8, colors: Seq<Lab>)
    requires
        maps_to(pixel, colors, None),
    ensures
        colors.len() >= 2,
{
    let (own, found) = choose|own: Lab, nearest: Option<Lab>|
        #![trigger is_lab_of(pixel, own), is_closest(own, colors, nearest)]
        is_lab_of(pixel, own) && is_closest(own, colors, nearest) && None::<Lab> == recolored(
            own,
            nearest,
        );
    let distances = choose|distances: Seq<u32>| #[trigger]
        measured(own, colors, distances) && found == nearest(colors, distances);
    assert(!all_ordered(distances));
}

/// Mapping one pixel to one palette gives one color, provided that
/// `palette` gives one result for one argument.
pub proof fn lemma_maps_to_one(
    pixel: Rgb8,
    colors: Seq<Lab>,
    first: Option<Lab>,
    second: Option<Lab>,
)
    requires
        palette_is_single_valued(),
        maps_to(pixel, colors, first),
        maps_to(pixel, colors, second),
    ensures
        first == second,
{
    let (own1, nearest1) = choose|own: Lab, nearest: Option<Lab>|
        #![trigger is_lab_of(pixel, own), is_closest(own, colors, nearest)]
        is_lab_of(pixel, own) && is_closest(own, colors, nearest) && first == recolored(
            own,
            nearest,
        );
    let (own2, nearest2) = choose|own: Lab, nearest: Option<Lab>|
        #![trigger is_lab_of(pixel, own), is_closest(own, colors, nearest)]
        is_lab_of(pixel, own) && is_closest(own, colors, nearest) && second == recolored(
            own,
            nearest,
        );
    assert(own1 == own2);
    let d1 = choose|distances: Seq<u32>| #[trigger]
        measured(own1, colors, distances) && nearest1 == nearest(colors, distances);
    let d2 = choose|distances: Seq<u32>| #[trigger]
        measured(own2, colors, distances) && nearest2 == nearest(colors, distances);
    lemma_measured_once(own1, colors, d1, d2);
}

/// Two memoized matches of one pixel under one palette return the same
/// color, and a color that a table in agreement with the palette remembers
/// for the pixel is that color, so that a match that finds the pixel returns
/// what a match that searches returns; all this provided that `palette`
/// gives one result for one argument.
pub proof fn lemma_memoized_match_repeats(
    table: Map<Rgb8, Lab>,
    pixel: Rgb8,
    colors: Seq<Lab>,
    first: Option<Lab>,
    second: Option<Lab>,
)
    requires
        palette_is_single_valued(),
        agrees(table, colors),
        maps_to(pixel, colors, first),
        maps_to(pixel, colors, second),
    ensures
        first == second,
        table.contains_key(pixel) ==> first == Some(table[pixel]),
{
    lemma_maps_to_one(pixel, colors, first, second);
    if table.contains_key(pixel) {
        lemma_maps_to_one(pixel, colors, first, Some(table[pixel]));
    }
}

/// Remembering a color that a pixel is mapped to keeps a table in agreement
/// with the palette, whatever it remembered for the pixel before: two
/// workers that both remember a color of one pixel leave the table in
/// agreement.
pub proof fn lemma_remembering_keeps_agreement(
    table: Map<Rgb8, Lab>,
    pixel: Rgb8,
    color: Lab,
    colors: Seq<Lab>,
)
    requires
        agrees(table, colors),
        maps_to(pixel, colors, Some(color)),
    ensures
        agrees(table.insert(pixel, color), colors),
{
}

} // verus!
