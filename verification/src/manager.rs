//! Decisions of the graphical wallpaper manager, apart from its drawing.

use vstd::prelude::*;
use crate::text::{chars_eq, chars_less, chars_of, lemma_text_less_irreflexive, lemma_text_less_total, lemma_text_less_transitive, text_less};
use crate::wallpaper::WallpaperInfo;
use crate::text::{decimal, push_decimal, push_str};

verus! {

/// Timing of a fading banner, counted in frames.
pub struct AnimData {
    /// The frame at which the animation starts.
    pub start: u64,
    /// Frames of the fade in.
    pub start_frames: u64,
    /// Frames between the end of the fade in and the start of the fade out.
    pub end: u64,
    /// Frames of the fade out.
    pub end_frames: u64,
}

impl AnimData {
    /// The frame at which the whole animation is over.
    pub open spec fn last_frame(&self) -> int {
        self.start + self.start_frames + self.end + self.end_frames
    }

    /// A banner that starts at `start` and stays fully shown for `time` frames,
    /// with a fade in of 5 frames and a fade out of 30.
    pub fn with_default_frames(start: u64, time: u64) -> (res: Self)
        ensures
            res.start == start,
            res.start_frames == 5,
            res.end == time,
            res.end_frames == 30,
    {
        AnimData { start, start_frames: 5, end: time, end_frames: 30 }
    }

    /// Whether the animation is over at frame `current_frames`.
    pub fn has_reached_end(&self, current_frames: u64) -> (res: bool)
        requires
            self.last_frame() <= u64::MAX,
        ensures
            res == (self.last_frame() <= current_frames),
    {
        self.start + self.start_frames + self.end + self.end_frames <= current_frames
    }
}

/// The banners shown, each with its animation.
pub struct Banners {
    animations: Vec<(AnimData, String)>,
}

impl Banners {
    /// The banners, oldest first.
    pub closed spec fn view(&self) -> Seq<(AnimData, String)> {
        self.animations@
    }

    /// No banner.
    pub fn new() -> (res: Banners)
        ensures
            res@ == Seq::<(AnimData, String)>::empty(),
    {
        Banners { animations: Vec::new() }
    }

    /// Shows a banner with `text`, animated by `anim`.
    pub fn push_banner(&mut self, text: String, anim: AnimData)
        ensures
            final(self)@ == old(self)@.push((anim, text)),
    {
        self.animations.push((anim, text));
    }

    /// The number of banners.
    pub fn len(&self) -> (res: usize)
        ensures
            res == self@.len(),
    {
        self.animations.len()
    }

    /// The text of the `i`-th banner.
    pub fn text_at(&self, i: usize) -> (res: &String)
        requires
            i < self@.len(),
        ensures
            *res == self@[i as int].1,
    {
        &self.animations[i].1
    }

    /// Whether banners are open at frame `frames` (each banner's end is
    /// computed, and any banner, ended or not, counts as open).
    pub fn check_banners_open(&self, frames: u64) -> (res: bool)
        requires
            forall|i: int| 0 <= i < self@.len() ==> (#[trigger] self@[i]).0.last_frame() <= u64::MAX,
        ensures
            res == (self@.len() > 0),
    {
        let mut i: usize = 0;
        while i < self.animations.len()
            invariant
                i <= self@.len(),
                forall|j: int| 0 <= j < self@.len() ==> (#[trigger] self@[j]).0.last_frame() <= u64::MAX,
            decreases self.animations.len() - i,
        {
            let _ended = self.animations[i].0.has_reached_end(frames);
            i = i + 1;
        }
        self.animations.len() > 0
    }
}

/// A wallpaper as the manager shows it.
pub struct Wallpaper {
    pub wallpaper_info: WallpaperInfo,
    /// Where its preview image is loaded from, once it is loaded.
    pub image: Option<String>,
}

/// Whether the texts are in strictly increasing order.
pub open spec fn sorted_ids(ids: Seq<Seq<char>>) -> bool {
    forall|i: int, j: int| 0 <= i < j < ids.len() ==> text_less(#[trigger] ids[i], #[trigger] ids[j])
}

/// The location of the preview image of `wp`.
pub open spec fn preview_uri(wp: WallpaperInfo) -> Seq<char> {
    "file://"@ + wp.full_path@ + "/"@ + wp.data.preview@
}

/// Whether the text `a` comes before the characters `b`.
fn str_less(a: &str, b: &[char]) -> (res: bool)
    ensures
        res == text_less(a@, b@),
{
    let ac = chars_of(a);
    chars_less(ac.as_slice(), b)
}

/// The wallpapers known to the manager, by id, in the order of their ids.
pub struct WallpaperCatalog {
    entries: Vec<(String, Wallpaper)>,
}

/// Where `id` goes among sorted `ids`: after every id before it.
pub open spec fn sorted_position(ids: Seq<Seq<char>>, id: Seq<char>) -> int
    decreases ids.len(),
{
    if ids.len() == 0 || !text_less(ids[0], id) {
        0
    } else {
        1 + sorted_position(ids.drop_first(), id)
    }
}

proof fn lemma_sorted_position(ids: Seq<Seq<char>>, id: Seq<char>, p: int)
    requires
        0 <= p <= ids.len(),
        forall|j: int| 0 <= j < p ==> text_less(#[trigger] ids[j], id),
        p < ids.len() ==> !text_less(ids[p], id),
    ensures
        sorted_position(ids, id) == p,
    decreases p,
{
    if p > 0 {
        let t = ids.drop_first();
        assert forall|j: int| 0 <= j < p - 1 implies text_less(#[trigger] t[j], id) by {
            assert(t[j] == ids[j + 1]);
        }
        if p < ids.len() {
            assert(t[p - 1] == ids[p]);
        }
        assert(text_less(ids[0], id));
        lemma_sorted_position(t, id, p - 1);
    }
}

impl WallpaperCatalog {
    #[verifier::type_invariant]
    spec fn inv(self) -> bool {
        sorted_ids(Seq::new(self.entries@.len(), |i: int| self.entries@[i].0@))
    }

    /// The ids, in increasing order.
    pub closed spec fn ids(&self) -> Seq<Seq<char>> {
        Seq::new(self.entries@.len(), |i: int| self.entries@[i].0@)
    }

    /// The wallpapers, in the same order as `ids`.
    pub closed spec fn items(&self) -> Seq<Wallpaper> {
        Seq::new(self.entries@.len(), |i: int| self.entries@[i].1)
    }

    /// The position of `id` among the ids.
    pub open spec fn id_index(&self, id: Seq<char>) -> int {
        choose|i: int| 0 <= i < self.ids().len() && #[trigger] self.ids()[i] == id
    }

    /// The wallpapers by id.
    pub open spec fn to_map(&self) -> Map<Seq<char>, Wallpaper> {
        Map::new(|k: Seq<char>| self.ids().contains(k), |k: Seq<char>| self.items()[self.id_index(k)])
    }

    /// The ids are in increasing order, one wallpaper each.
    pub open spec fn well_formed(&self) -> bool {
        &&& sorted_ids(self.ids())
        &&& self.ids().len() == self.items().len()
    }


    /// Every catalog is well formed: its ids are in increasing order, one
    /// wallpaper each, and it holds finitely many. Calling this tells a
    /// caller so of the catalog it holds; it does nothing when run.
    pub fn note_well_formed(&self)
        ensures
            self.well_formed(),
            self.to_map().dom().finite(),
    {
        proof {
            use_type_invariant(self);
            vstd::seq_lib::seq_to_set_is_finite(self.ids());
            assert(self.to_map().dom() =~= self.ids().to_set());
        }
    }

    /// No wallpaper.
    pub fn new() -> (res: WallpaperCatalog)
        ensures
            res.well_formed(),
            res.to_map() == Map::<Seq<char>, Wallpaper>::empty(),
            res.ids() == Seq::<Seq<char>>::empty(),
    {
        let res = WallpaperCatalog { entries: Vec::new() };
        assert(res.ids() =~= Seq::<Seq<char>>::empty());
        assert(res.to_map() =~= Map::<Seq<char>, Wallpaper>::empty());
        res.note_well_formed();
        res
    }

    /// The number of wallpapers.
    pub fn len(&self) -> (res: usize)
        ensures
            res == self.ids().len(),
    {
        self.entries.len()
    }

    /// The `i`-th wallpaper in the order of ids.
    pub fn get(&self, i: usize) -> (res: (&String, &Wallpaper))
        requires
            i < self.ids().len(),
        ensures
            res.0@ == self.ids()[i as int],
            *res.1 == self.items()[i as int],
    {
        (&self.entries[i].0, &self.entries[i].1)
    }

    /// The position of `id`, if the catalog has it.
    pub fn find(&self, id: &str) -> (res: Option<usize>)
        ensures
            res is None <==> !self.ids().contains(id@),
            res matches Some(i) ==> i < self.ids().len() && self.ids()[i as int] == id@
                && self.id_index(id@) == i,
    {
        let target = chars_of(id);
        let mut i: usize = 0;
        while i < self.entries.len()
            invariant
                i <= self.entries@.len(),
                target@ == id@,
                forall|j: int| 0 <= j < i ==> self.ids()[j] != id@,
            decreases self.entries.len() - i,
        {
            let cur = chars_of(self.entries[i].0.as_str());
            if chars_eq(cur.as_slice(), target.as_slice()) {
                proof {
                    use_type_invariant(self);
                    assert(self.ids()[i as int] == id@);
                    let k = self.id_index(id@);
                    assert(self.ids()[k] == id@);
                    if k < i {
                        lemma_text_less_irreflexive(id@);
                        assert(text_less(self.ids()[k], self.ids()[i as int]));
                    } else if k > i {
                        lemma_text_less_irreflexive(id@);
                        assert(text_less(self.ids()[i as int], self.ids()[k]));
                    }
                }
                return Some(i);
            }
            i = i + 1;
        }
        None
    }

    /// Whether the catalog has the wallpaper `id`.
    pub fn contains_key(&self, id: &str) -> (res: bool)
        ensures
            res == self.to_map().contains_key(id@),
    {
        self.find(id).is_some()
    }

    /// Adds the wallpaper `w` under the new id `id`, in its place by id.
    pub fn insert_new(&mut self, id: String, w: Wallpaper)
        requires
            !old(self).to_map().contains_key(id@),
        ensures
            final(self).well_formed(),
            final(self).to_map() == old(self).to_map().insert(id@, w),
            final(self).ids() == old(self).ids().insert(sorted_position(old(self).ids(), id@), id@),
    {
        proof {
            use_type_invariant(&*self);
        }
        let ghost ids = self.ids();
        let ghost items = self.items();
        let ghost old_map = self.to_map();
        let idc = chars_of(id.as_str());
        let mut p: usize = 0;
        while p < self.entries.len() && str_less(self.entries[p].0.as_str(), idc.as_slice())
            invariant
                p <= self.entries@.len(),
                ids == self.ids(),
                idc@ == id@,
                forall|j: int| 0 <= j < p ==> text_less(#[trigger] ids[j], id@),
            decreases self.entries.len() - p,
        {
            p = p + 1;
        }
        proof {
            lemma_sorted_position(ids, id@, p as int);
        }
        let ghost idv = id@;
        let mut entries: Vec<(String, Wallpaper)> = Vec::new();
        std::mem::swap(&mut entries, &mut self.entries);
        entries.insert(p, (id, w));
        let ghost new_ids = Seq::new(entries@.len(), |i: int| entries@[i].0@);
        assert(new_ids =~= ids.insert(p as int, idv));
        assert(sorted_ids(new_ids)) by {
            assert(!ids.contains(idv));
            assert forall|a: int, b: int| 0 <= a < b < new_ids.len() implies text_less(#[trigger] new_ids[a], #[trigger] new_ids[b]) by {
                if a < p && b == p {
                } else if a == p && b > p {
                    let b0 = b - 1;
                    assert(new_ids[b] == ids[b0]);
                    if p < ids.len() {
                        assert(!text_less(ids[p as int], idv));
                        if ids[p as int] == idv {
                            assert(ids.contains(idv));
                        }
                        lemma_text_less_total(ids[p as int], idv);
                        if b0 > p {
                            lemma_text_less_transitive(idv, ids[p as int], ids[b0]);
                        }
                    }
                } else if a < p && b > p {
                    assert(new_ids[b] == ids[b - 1]);
                    assert(new_ids[a] == ids[a]);
                } else if b < p {
                    assert(new_ids[b] == ids[b]);
                    assert(new_ids[a] == ids[a]);
                } else {
                    assert(new_ids[b] == ids[b - 1]);
                    assert(new_ids[a] == ids[a - 1]);
                }
            }
        }
        self.entries = entries;
        proof {
            assert(self.ids() =~= ids.insert(p as int, idv));
            assert(self.items() =~= items.insert(p as int, w));
            self.lemma_insert_map(ids, items, p as int, idv, w);
        }
        self.note_well_formed();
    }

    proof fn lemma_insert_map(
        &self,
        ids: Seq<Seq<char>>,
        items: Seq<Wallpaper>,
        p: int,
        id: Seq<char>,
        w: Wallpaper,
    )
        requires
            0 <= p <= ids.len(),
            ids.len() == items.len(),
            sorted_ids(ids),
            sorted_ids(self.ids()),
            !ids.contains(id),
            self.ids() == ids.insert(p, id),
            self.items() == items.insert(p, w),
        ensures
            self.to_map() == Map::new(
                |k: Seq<char>| ids.contains(k),
                |k: Seq<char>| items[choose|i: int| 0 <= i < ids.len() && #[trigger] ids[i] == k],
            ).insert(id, w),
    {
        let m0 = Map::new(
            |k: Seq<char>| ids.contains(k),
            |k: Seq<char>| items[choose|i: int| 0 <= i < ids.len() && #[trigger] ids[i] == k],
        );
        assert forall|k: Seq<char>| #[trigger] self.ids().contains(k) == (ids.contains(k) || k == id) by {
            if ids.contains(k) {
                let j = choose|j: int| 0 <= j < ids.len() && ids[j] == k;
                if j < p {
                    assert(self.ids()[j] == k);
                } else {
                    assert(self.ids()[j + 1] == k);
                }
            }
            if k == id {
                assert(self.ids()[p] == id);
            }
            if self.ids().contains(k) {
                let j = choose|j: int| 0 <= j < self.ids().len() && self.ids()[j] == k;
                if j < p {
                    assert(ids[j] == k);
                } else if j > p {
                    assert(ids[j - 1] == k);
                }
            }
        }
        assert forall|k: Seq<char>| self.ids().contains(k) implies #[trigger] self.items()[self.id_index(k)]
            == m0.insert(id, w)[k] by {
            let j = self.id_index(k);
            assert(self.ids()[j] == k);
            if k == id {
                assert(self.ids()[p] == id);
                if j != p {
                    lemma_text_less_irreflexive(id);
                    if j < p {
                        assert(text_less(self.ids()[j], self.ids()[p]));
                    } else {
                        assert(text_less(self.ids()[p], self.ids()[j]));
                    }
                }
            } else {
                assert(ids.contains(k));
                let j0 = choose|i: int| 0 <= i < ids.len() && #[trigger] ids[i] == k;
                let j1 = if j0 < p { j0 } else { j0 + 1 };
                assert(self.ids()[j1] == k);
                if j != j1 {
                    lemma_text_less_irreflexive(k);
                    if j < j1 {
                        assert(text_less(self.ids()[j], self.ids()[j1]));
                    } else {
                        assert(text_less(self.ids()[j1], self.ids()[j]));
                    }
                }
                assert(self.items()[j1] == items[j0]);
            }
        }
        assert(self.to_map() =~= m0.insert(id, w));
    }

    /// Positions of distinct ids differ.
    proof fn lemma_index_unique(&self, i: int, j: int)
        requires
            sorted_ids(self.ids()),
            0 <= i < self.ids().len(),
            0 <= j < self.ids().len(),
            self.ids()[i] == self.ids()[j],
        ensures
            i == j,
    {
        if i < j {
            lemma_text_less_irreflexive(self.ids()[i]);
            assert(text_less(self.ids()[i], self.ids()[j]));
        } else if j < i {
            lemma_text_less_irreflexive(self.ids()[i]);
            assert(text_less(self.ids()[j], self.ids()[i]));
        }
    }

    /// Gives the wallpaper at position `i` the preview image `uri`.
    fn set_image_at(&mut self, i: usize, uri: String)
        requires
            i < old(self).ids().len(),
        ensures
            final(self).well_formed(),
            final(self).ids() == old(self).ids(),
            final(self).to_map() == old(self).to_map().insert(
                old(self).ids()[i as int],
                Wallpaper { wallpaper_info: old(self).items()[i as int].wallpaper_info, image: Some(uri) },
            ),
    {
        proof {
            use_type_invariant(&*self);
        }
        let ghost ids = self.ids();
        let ghost items = self.items();
        let ghost old_self = *self;
        let mut entries: Vec<(String, Wallpaper)> = Vec::new();
        std::mem::swap(&mut entries, &mut self.entries);
        let (id, previous) = entries.remove(i);
        let w = Wallpaper { wallpaper_info: previous.wallpaper_info, image: Some(uri) };
        let ghost wv = w;
        entries.insert(i, (id, w));
        assert(Seq::new(entries@.len(), |k: int| entries@[k].0@) =~= ids);
        self.entries = entries;
        assert(self.ids() =~= ids);
        assert(self.items() =~= items.update(i as int, wv));
        proof {
            let key = ids[i as int];
            assert forall|k: Seq<char>| self.ids().contains(k) implies #[trigger] self.items()[self.id_index(k)]
                == old_self.to_map().insert(key, wv)[k] by {
                let j = self.id_index(k);
                if k == key {
                    self.lemma_index_unique(j, i as int);
                } else {
                    let j0 = old_self.id_index(k);
                    assert(old_self.ids()[j0] == k);
                    self.lemma_index_unique(j, j0);
                    assert(j != i);
                }
            }
            assert forall|k: Seq<char>| #[trigger] self.ids().contains(k) == old_self.to_map().insert(key, wv).contains_key(k) by {
                if k == key {
                    assert(self.ids()[i as int] == key);
                }
            }
            assert(self.to_map() =~= old_self.to_map().insert(key, wv));
        }
        self.note_well_formed();
    }

    /// Removes the wallpaper `id`, if the catalog has it.
    pub fn remove(&mut self, id: &str)
        ensures
            final(self).well_formed(),
            final(self).to_map() == old(self).to_map().remove(id@),
    {
        proof {
            use_type_invariant(&*self);
        }
        let ghost old_self = *self;
        match self.find(id) {
            None => {
                assert(self.to_map() =~= old_self.to_map().remove(id@));
            },
            Some(i) => {
                let ghost ids = self.ids();
                let ghost items = self.items();
                let mut entries: Vec<(String, Wallpaper)> = Vec::new();
                std::mem::swap(&mut entries, &mut self.entries);
                let _gone = entries.remove(i);
                let ghost new_ids = Seq::new(entries@.len(), |k: int| entries@[k].0@);
                assert(new_ids =~= ids.remove(i as int));
                assert(sorted_ids(new_ids)) by {
                    assert forall|a: int, b: int| 0 <= a < b < new_ids.len() implies text_less(#[trigger] new_ids[a], #[trigger] new_ids[b]) by {
                        let a0 = if a < i { a } else { a + 1 };
                        let b0 = if b < i { b } else { b + 1 };
                        assert(new_ids[a] == ids[a0]);
                        assert(new_ids[b] == ids[b0]);
                    }
                }
                self.entries = entries;
                assert(self.ids() =~= ids.remove(i as int));
                assert(self.items() =~= items.remove(i as int));
                proof {
                    assert forall|k: Seq<char>| #[trigger] self.ids().contains(k) == old_self.to_map().remove(id@).contains_key(k) by {
                        if self.ids().contains(k) {
                            let j = choose|j: int| 0 <= j < self.ids().len() && self.ids()[j] == k;
                            let j0 = if j < i { j } else { j + 1 };
                            assert(ids[j0] == k);
                            if k == id@ {
                                old_self.lemma_index_unique(j0, i as int);
                            }
                        }
                        if old_self.to_map().remove(id@).contains_key(k) {
                            let j0 = choose|j: int| 0 <= j < ids.len() && ids[j] == k;
                            assert(j0 != i);
                            let j = if j0 < i { j0 } else { j0 - 1 };
                            assert(self.ids()[j] == k);
                        }
                    }
                    assert forall|k: Seq<char>| self.ids().contains(k) implies #[trigger] self.items()[self.id_index(k)]
                        == old_self.to_map().remove(id@)[k] by {
                        let j = self.id_index(k);
                        let j0 = if j < i { j } else { j + 1 };
                        assert(ids[j0] == k);
                        let jo = old_self.id_index(k);
                        old_self.lemma_index_unique(j0, jo);
                    }
                    assert(self.to_map() =~= old_self.to_map().remove(id@));
                }
            },
        }
        self.note_well_formed();
    }
}

/// What loading the wallpapers `wps` in order gives: each one whose id is not
/// there yet is added without a preview image.
pub open spec fn spec_load_all(m: Map<Seq<char>, Wallpaper>, wps: Seq<WallpaperInfo>) -> Map<
    Seq<char>,
    Wallpaper,
>
    decreases wps.len(),
{
    if wps.len() == 0 {
        m
    } else {
        let m1 = spec_load_all(m, wps.drop_last());
        let w = wps.last();
        if m1.contains_key(w.id@) {
            m1
        } else {
            m1.insert(w.id@, Wallpaper { wallpaper_info: w, image: None })
        }
    }
}

proof fn lemma_load_all_dom(m: Map<Seq<char>, Wallpaper>, wps: Seq<WallpaperInfo>, k: Seq<char>)
    ensures
        spec_load_all(m, wps).contains_key(k) <==> (m.contains_key(k) || exists|j: int|
            0 <= j < wps.len() && #[trigger] wps[j].id@ == k),
    decreases wps.len(),
{
    if wps.len() > 0 {
        let init = wps.drop_last();
        lemma_load_all_dom(m, init, k);
        if exists|j: int| 0 <= j < init.len() && #[trigger] init[j].id@ == k {
            let j = choose|j: int| 0 <= j < init.len() && #[trigger] init[j].id@ == k;
            assert(wps[j].id@ == k);
        }
        if exists|j: int| 0 <= j < wps.len() && #[trigger] wps[j].id@ == k {
            let j = choose|j: int| 0 <= j < wps.len() && #[trigger] wps[j].id@ == k;
            if j < init.len() {
                assert(init[j].id@ == k);
            }
        }
    }
}

/// Whether the wallpaper `wp` still needs its preview image loaded.
pub open spec fn needs_image(m: Map<Seq<char>, Wallpaper>, wp: WallpaperInfo) -> bool {
    !m.contains_key(wp.id@) || m[wp.id@].image is None
}

/// The position of the first wallpaper of `wps` that needs its preview
/// image, or -1.
pub open spec fn first_needing_image(m: Map<Seq<char>, Wallpaper>, wps: Seq<WallpaperInfo>) -> int
    decreases wps.len(),
{
    if wps.len() == 0 {
        -1
    } else if needs_image(m, wps[0]) {
        0
    } else {
        let r = first_needing_image(m, wps.drop_first());
        if r < 0 {
            -1
        } else {
            r + 1
        }
    }
}

proof fn lemma_first_needing_image(m: Map<Seq<char>, Wallpaper>, wps: Seq<WallpaperInfo>, k: int)
    requires
        0 <= k <= wps.len(),
        forall|j: int| 0 <= j < k ==> !needs_image(m, #[trigger] wps[j]),
    ensures
        k < wps.len() && needs_image(m, wps[k]) ==> first_needing_image(m, wps) == k,
        k == wps.len() ==> first_needing_image(m, wps) == -1,
    decreases k,
{
    if k > 0 {
        let t = wps.drop_first();
        assert forall|j: int| 0 <= j < k - 1 implies !needs_image(m, #[trigger] t[j]) by {
            assert(t[j] == wps[j + 1]);
        }
        if k < wps.len() {
            assert(t[k - 1] == wps[k]);
        }
        assert(!needs_image(m, wps[0]));
        lemma_first_needing_image(m, t, k - 1);
    }
}

/// Whether `m2` is the catalog `m` after loading the preview image of `wp`:
/// the wallpaper is added with the image if its id is new, else the known
/// wallpaper keeps its description and gets the image.
pub open spec fn is_with_image(
    m2: Map<Seq<char>, Wallpaper>,
    m: Map<Seq<char>, Wallpaper>,
    wp: WallpaperInfo,
) -> bool {
    &&& m2.dom() == m.dom().insert(wp.id@)
    &&& forall|k: Seq<char>| #[trigger] m.contains_key(k) && k != wp.id@ ==> m2[k] == m[k]
    &&& m2[wp.id@].image matches Some(u) && u@ == preview_uri(wp)
    &&& m2[wp.id@].wallpaper_info == (if m.contains_key(wp.id@) {
        m[wp.id@].wallpaper_info
    } else {
        wp
    })
}

impl WallpaperCatalog {
    /// Adds each wallpaper of `wps` whose id is new, without preview image.
    /// Tells whether any was added.
    pub fn load_all_wallpapers(&mut self, wps: Vec<WallpaperInfo>) -> (res: bool)
        ensures
            final(self).well_formed(),
            final(self).to_map() == spec_load_all(old(self).to_map(), wps@),
            res == exists|j: int| 0 <= j < wps@.len() && !old(self).to_map().contains_key(#[trigger] wps@[j].id@),
    {
        self.note_well_formed();
        let ghost orig = wps@;
        let ghost m0 = self.to_map();
        let total = wps.len();
        assert(orig.len() == total);
        let mut wps = wps;
        let mut used = false;
        let mut i: usize = 0;
        assert(orig.take(0) =~= Seq::<WallpaperInfo>::empty());
        while wps.len() > 0
            invariant
                self.well_formed(),
                i <= orig.len(),
                orig.len() <= usize::MAX,
                orig.len() == i + wps@.len(),
                wps@ == orig.skip(i as int),
                self.to_map() == spec_load_all(m0, orig.take(i as int)),
                used == exists|j: int| 0 <= j < i && !m0.contains_key(#[trigger] orig[j].id@),
            decreases wps.len(),
        {
            let wp = wps.remove(0);
            assert(wp == orig[i as int]);
            assert(orig.take(i + 1).drop_last() =~= orig.take(i as int));
            proof {
                lemma_load_all_dom(m0, orig.take(i as int), wp.id@);
            }
            if !self.contains_key(wp.id.as_str()) {
                let id = wp.id.clone();
                self.insert_new(id, Wallpaper { wallpaper_info: wp, image: None });
                used = true;
            } else {
                proof {
                    if !m0.contains_key(orig[i as int].id@) {
                        let j = choose|j: int| 0 <= j < orig.take(i as int).len() && #[trigger] orig.take(i as int)[j].id@ == orig[i as int].id@;
                        assert(orig[j].id@ == orig[i as int].id@);
                    }
                }
            }
            i = i + 1;
            assert(wps@ =~= orig.skip(i as int));
        }
        assert(orig.take(i as int) =~= orig);
        used
    }

    /// Loads the preview image of the first wallpaper of `wps` that needs one
    /// (adding the wallpaper if its id is new). Tells whether one did.
    pub fn load_next_image(&mut self, wps: Vec<WallpaperInfo>) -> (res: bool)
        ensures
            final(self).well_formed(),
            first_needing_image(old(self).to_map(), wps@) < 0 ==> !res && final(self).to_map()
                == old(self).to_map(),
            first_needing_image(old(self).to_map(), wps@) >= 0 ==> res && is_with_image(
                final(self).to_map(),
                old(self).to_map(),
                wps@[first_needing_image(old(self).to_map(), wps@)],
            ),
    {
        self.note_well_formed();
        let ghost orig = wps@;
        let ghost m0 = self.to_map();
        let total = wps.len();
        assert(orig.len() == total);
        let mut rest = wps;
        let mut i: usize = 0;
        while rest.len() > 0
            invariant
                self.well_formed(),
                i <= orig.len(),
                orig.len() <= usize::MAX,
                orig.len() == i + rest@.len(),
                m0 == old(self).to_map(),
                orig == wps@,
                rest@ == orig.skip(i as int),
                self.to_map() == m0,
                forall|j: int| 0 <= j < i ==> !needs_image(m0, #[trigger] orig[j]),
            decreases rest.len(),
        {
            let wp = rest.remove(0);
            assert(wp == orig[i as int]);
            match self.find(wp.id.as_str()) {
                None => {
                    proof {
                        lemma_first_needing_image(m0, orig, i as int);
                    }
                    let uri = wp.preview_uri();
                    let id = wp.id.clone();
                    let ghost wpv = wp;
                    self.insert_new(id, Wallpaper { wallpaper_info: wp, image: Some(uri) });
                    assert(first_needing_image(m0, orig) == i);
                    assert(self.to_map().dom() =~= m0.dom().insert(wpv.id@));
                    return true;
                },
                Some(k) => {
                    let (_, entry) = self.get(k);
                    if entry.image.is_none() {
                        proof {
                            lemma_first_needing_image(m0, orig, i as int);
                        }
                        let uri = wp.preview_uri();
                        self.set_image_at(k, uri);
                        assert(first_needing_image(m0, orig) == i);
                        assert(self.to_map().dom() =~= m0.dom().insert(wp.id@));
                        return true;
                    }
                },
            }
            i = i + 1;
            assert(rest@ =~= orig.skip(i as int));
        }
        proof {
            lemma_first_needing_image(m0, orig, i as int);
        }
        false
    }
}

/// The floating panel the manager shows over its wallpapers, if any.
#[derive(Clone, Copy, Debug, PartialEq, Eq, Structural)]
pub enum Subpage {
    /// No panel.
    Hidden,
    About,
    Delete,
    Import,
    GetWallpapers,
}

/// What the user did to the panels.
#[derive(Clone, Copy, Debug, PartialEq, Eq, Structural)]
pub enum PanelEvent {
    /// Chose `Get wallpapers > WallpaperHub` in the menu.
    OpenGetWallpapers,
    /// Chose `Help > About` in the menu.
    OpenAbout,
    /// Chose `Delete` in a wallpaper's context menu.
    RequestDelete,
    /// Pressed `Delete` in the delete panel.
    ConfirmDelete,
    /// Pressed `Close` or `Cancel` in a panel.
    Close,
    /// Clicked outside the open panel.
    ClickOutside,
}

/// The panel shown after `event` while `current` is shown, and whether the
/// selected wallpaper is to be deleted: the menu entries open their panel,
/// `Delete` in a context menu opens the delete panel, `Delete` in the delete
/// panel deletes and closes it, and a button that closes a panel or a click
/// outside it closes it.
pub fn panel_step(current: Subpage, event: PanelEvent) -> (res: (Subpage, bool))
    ensures
        res.1 == (current == Subpage::Delete && event == PanelEvent::ConfirmDelete),
        res.0 == (match event {
            PanelEvent::OpenGetWallpapers => Subpage::GetWallpapers,
            PanelEvent::OpenAbout => Subpage::About,
            PanelEvent::RequestDelete => Subpage::Delete,
            PanelEvent::ConfirmDelete => if current == Subpage::Delete {
                Subpage::Hidden
            } else {
                current
            },
            PanelEvent::Close => Subpage::Hidden,
            PanelEvent::ClickOutside => Subpage::Hidden,
        }),
{
    match event {
        PanelEvent::OpenGetWallpapers => (Subpage::GetWallpapers, false),
        PanelEvent::OpenAbout => (Subpage::About, false),
        PanelEvent::RequestDelete => (Subpage::Delete, false),
        PanelEvent::ConfirmDelete => match current {
            Subpage::Delete => (Subpage::Hidden, true),
            _ => (current, false),
        },
        PanelEvent::Close => (Subpage::Hidden, false),
        PanelEvent::ClickOutside => (Subpage::Hidden, false),
    }
}

/// How the daemon fills the space around a wallpaper.
#[derive(Clone, Copy, Debug, PartialEq, Eq, Structural)]
pub enum Clamp {
    Clamp,
    Border,
    Repeat,
}

/// How a wallpaper is scaled to its screen.
#[derive(Clone, Copy, Debug, PartialEq, Eq, Structural)]
pub enum Scaling {
    Stretch,
    Fit,
    Fill,
    Default,
}

/// The wallpaper chosen for a screen.
pub struct ScreenInfo {
    pub id: String,
    pub scaling: Scaling,
}

/// `true` or `false`.
pub open spec fn bool_text(b: bool) -> Seq<char> {
    if b {
        "true"@
    } else {
        "false"@
    }
}

/// The debug text of a clamp mode: its variant's name.
pub open spec fn clamp_text(c: Clamp) -> Seq<char> {
    match c {
        Clamp::Clamp => "Clamp"@,
        Clamp::Border => "Border"@,
        Clamp::Repeat => "Repeat"@,
    }
}

/// The debug text of a scaling mode: its variant's name.
pub open spec fn scaling_text(s: Scaling) -> Seq<char> {
    match s {
        Scaling::Stretch => "Stretch"@,
        Scaling::Fit => "Fit"@,
        Scaling::Fill => "Fill"@,
        Scaling::Default => "Default"@,
    }
}

/// The debug text of a frame rate: `Some(<n>)` or `None`.
pub open spec fn fps_text(fps: Option<u16>) -> Seq<char> {
    match fps {
        Some(n) => "Some("@ + decimal(n as nat) + ")"@,
        None => "None"@,
    }
}

fn bool_string(b: bool) -> (res: String)
    ensures
        res@ == bool_text(b),
{
    let mut s = String::new();
    if b {
        push_str(&mut s, "true");
    } else {
        push_str(&mut s, "false");
    }
    s
}

fn clamp_string(c: Clamp) -> (res: String)
    ensures
        res@ == clamp_text(c),
{
    let mut s = String::new();
    match c {
        Clamp::Clamp => push_str(&mut s, "Clamp"),
        Clamp::Border => push_str(&mut s, "Border"),
        Clamp::Repeat => push_str(&mut s, "Repeat"),
    }
    s
}

fn push_scaling(s: &mut String, sc: Scaling)
    ensures
        final(s)@ == old(s)@ + scaling_text(sc),
{
    match sc {
        Scaling::Stretch => push_str(s, "Stretch"),
        Scaling::Fit => push_str(s, "Fit"),
        Scaling::Fill => push_str(s, "Fill"),
        Scaling::Default => push_str(s, "Default"),
    }
}

fn fps_string(fps: Option<u16>) -> (res: String)
    ensures
        res@ == fps_text(fps),
{
    let mut s = String::new();
    match fps {
        Some(n) => {
            push_str(&mut s, "Some(");
            push_decimal(&mut s, n as u64);
            push_str(&mut s, ")");
        },
        None => push_str(&mut s, "None"),
    }
    s
}

fn text(t: &str) -> (res: String)
    ensures
        res@ == t@,
{
    let mut s = String::new();
    push_str(&mut s, t);
    s
}

/// The manager's settings, which it sends to the daemon as options when changed.
pub struct ManagerSettings {
    pub debugging: bool,
    pub silent: bool,
    pub no_audio_processing: bool,
    pub no_fullscreen_pause: bool,
    pub fps: Option<u16>,
    pub clamp: Clamp,
    /// The wallpaper of each screen, by screen name (no name twice).
    pub screens: Vec<(String, Option<ScreenInfo>)>,
}

/// The screen names of the entries.
pub open spec fn screen_names(v: Seq<(String, Option<ScreenInfo>)>) -> Seq<Seq<char>> {
    Seq::new(v.len(), |i: int| v[i].0@)
}

impl ManagerSettings {
    /// Whether no screen name occurs twice.
    pub open spec fn well_formed(&self) -> bool {
        forall|i: int, j: int|
            0 <= i < self.screens@.len() && 0 <= j < self.screens@.len() && i != j
                ==> #[trigger] self.screens@[i].0@ != #[trigger] self.screens@[j].0@
    }

    /// The position of the screen `name`, if it has an entry.
    pub fn find_screen(&self, name: &str) -> (res: Option<usize>)
        ensures
            res is None <==> !screen_names(self.screens@).contains(name@),
            res matches Some(i) ==> i < self.screens@.len() && self.screens@[i as int].0@ == name@,
    {
        let target = crate::text::chars_of(name);
        let mut i: usize = 0;
        while i < self.screens.len()
            invariant
                i <= self.screens@.len(),
                target@ == name@,
                forall|j: int| 0 <= j < i ==> self.screens@[j].0@ != name@,
            decreases self.screens.len() - i,
        {
            let cur = crate::text::chars_of(self.screens[i].0.as_str());
            if crate::text::chars_eq(cur.as_slice(), target.as_slice()) {
                assert(screen_names(self.screens@)[i as int] == name@);
                return Some(i);
            }
            i = i + 1;
        }
        assert forall|j: int| 0 <= j < screen_names(self.screens@).len() implies screen_names(self.screens@)[j] != name@ by {
            assert(screen_names(self.screens@)[j] == self.screens@[j].0@);
        }
        None
    }

    /// Gives every display of `displays` that has no entry yet the
    /// placeholder wallpaper `test` with default scaling, in order.
    pub fn add_missing_screens(&mut self, displays: &Vec<String>)
        requires
            old(self).well_formed(),
        ensures
            final(self).well_formed(),
            final(self).screens@.len() >= old(self).screens@.len(),
            forall|i: int| 0 <= i < old(self).screens@.len() ==> final(self).screens@[i] == old(self).screens@[i],
            forall|k: Seq<char>| #[trigger] screen_names(final(self).screens@).contains(k) <==> (
                screen_names(old(self).screens@).contains(k) || crate::ipc::string_views(displays@).contains(k)),
            forall|i: int| old(self).screens@.len() <= i < final(self).screens@.len()
                ==> ((#[trigger] final(self).screens@[i]).1 matches Some(si) && si.id@ == "test"@
                && si.scaling == Scaling::Default),
            final(self).debugging == old(self).debugging,
            final(self).silent == old(self).silent,
            final(self).no_audio_processing == old(self).no_audio_processing,
            final(self).no_fullscreen_pause == old(self).no_fullscreen_pause,
            final(self).fps == old(self).fps,
            final(self).clamp == old(self).clamp,
    {
        let ghost start = self.screens@;
        let ghost dv = crate::ipc::string_views(displays@);
        let mut d: usize = 0;
        while d < displays.len()
            invariant
                d <= displays@.len(),
                dv == crate::ipc::string_views(displays@),
                self.well_formed(),
                self.screens@.len() >= start.len(),
                forall|i: int| 0 <= i < start.len() ==> self.screens@[i] == start[i],
                forall|k: Seq<char>| #[trigger] screen_names(self.screens@).contains(k) <==> (
                    screen_names(start).contains(k) || dv.take(d as int).contains(k)),
                forall|i: int| start.len() <= i < self.screens@.len()
                    ==> ((#[trigger] self.screens@[i]).1 matches Some(si) && si.id@ == "test"@
                    && si.scaling == Scaling::Default),
                self.debugging == old(self).debugging,
                self.silent == old(self).silent,
                self.no_audio_processing == old(self).no_audio_processing,
                self.no_fullscreen_pause == old(self).no_fullscreen_pause,
                self.fps == old(self).fps,
                self.clamp == old(self).clamp,
            decreases displays.len() - d,
        {
            let name = &displays[d];
            assert(dv[d as int] == name@);
            let ghost before = self.screens@;
            let missing = self.find_screen(name.as_str()).is_none();
            if missing {
                let info = ScreenInfo { id: text("test"), scaling: Scaling::Default };
                self.screens.push((name.clone(), Some(info)));
                assert forall|i: int, j: int|
                    0 <= i < self.screens@.len() && 0 <= j < self.screens@.len() && i != j
                        implies #[trigger] self.screens@[i].0@ != #[trigger] self.screens@[j].0@ by {
                    if i == before.len() {
                        assert(screen_names(before)[j] == before[j].0@);
                    } else if j == before.len() {
                        assert(screen_names(before)[i] == before[i].0@);
                    }
                }
                assert(screen_names(self.screens@) =~= screen_names(before).push(name@));
            } else {
                assert(screen_names(self.screens@) =~= screen_names(before));
            }
            proof {
                let t0 = dv.take(d as int);
                let t1 = dv.take(d + 1);
                assert(t1 =~= t0.push(name@));
                assert forall|k: Seq<char>| #[trigger] t1.contains(k) <==> (t0.contains(k) || k == name@) by {
                    if t1.contains(k) {
                        let j = choose|j: int| 0 <= j < t1.len() && t1[j] == k;
                        if j < t0.len() {
                            assert(t0[j] == k);
                        }
                    }
                    if t0.contains(k) {
                        let j = choose|j: int| 0 <= j < t0.len() && t0[j] == k;
                        assert(t1[j] == k);
                    }
                    if k == name@ {
                        assert(t1[d as int] == k);
                    }
                }
                let nb = screen_names(before);
                let nn = screen_names(self.screens@);
                assert forall|k: Seq<char>| #[trigger] nn.contains(k) <==> (nb.contains(k) || (missing && k == name@)) by {
                    if missing {
                        if nn.contains(k) {
                            let j = choose|j: int| 0 <= j < nn.len() && nn[j] == k;
                            if j < nb.len() {
                                assert(nb[j] == k);
                            }
                        }
                        if nb.contains(k) {
                            let j = choose|j: int| 0 <= j < nb.len() && nb[j] == k;
                            assert(nn[j] == k);
                        }
                        if k == name@ {
                            assert(nn[nb.len() as int] == k);
                        }
                    }
                }
                assert forall|k: Seq<char>| #[trigger] screen_names(self.screens@).contains(k) <==> (
                    screen_names(start).contains(k) || t1.contains(k)) by {
                    assert(nb.contains(k) <==> (screen_names(start).contains(k) || t0.contains(k)));
                    if !missing && k == name@ {
                        assert(nb.contains(k));
                    }
                }
            }
            d = d + 1;
        }
        assert(dv.take(displays@.len() as int) =~= dv);
    }

    /// Turns `silent` on or off; gives the option to send: `silent`.
    pub fn set_silent(&mut self, silent: bool) -> (res: (String, String))
        ensures
            final(self).silent == silent,
            res.0@ == "silent"@,
            res.1@ == bool_text(silent),
            final(self).screens == old(self).screens,
    {
        self.silent = silent;
        (text("silent"), bool_string(silent))
    }

    /// Turns `no_audio_processing` on or off; gives the option to send:
    /// `audio_processing` with the new value of `no_audio_processing`.
    pub fn set_no_audio_processing(&mut self, no_audio_processing: bool) -> (res: (String, String))
        ensures
            final(self).no_audio_processing == no_audio_processing,
            res.0@ == "audio_processing"@,
            res.1@ == bool_text(no_audio_processing),
            final(self).screens == old(self).screens,
    {
        self.no_audio_processing = no_audio_processing;
        (text("audio_processing"), bool_string(no_audio_processing))
    }

    /// Turns the frame-rate limit on (at 30) or off; gives the option to
    /// send: `fps-enabled`.
    pub fn set_fps_enabled(&mut self, enabled: bool) -> (res: (String, String))
        ensures
            final(self).fps == (if enabled {
                Some(30u16)
            } else {
                None
            }),
            res.0@ == "fps-enabled"@,
            res.1@ == bool_text(enabled),
            final(self).screens == old(self).screens,
    {
        if enabled {
            self.fps = Some(30);
        } else {
            self.fps = None;
        }
        (text("fps-enabled"), bool_string(self.fps.is_some()))
    }

    /// Sets the frame-rate limit; gives the option to send: `fps` with
    /// `Some(<fps>)`.
    pub fn set_fps(&mut self, fps: u16) -> (res: (String, String))
        requires
            old(self).fps is Some,
        ensures
            final(self).fps == Some(fps),
            res.0@ == "fps"@,
            res.1@ == fps_text(Some(fps)),
            final(self).screens == old(self).screens,
    {
        self.fps = Some(fps);
        (text("fps"), fps_string(self.fps))
    }

    /// Sets the clamp mode; gives the option to send: `clamp`.
    pub fn set_clamp(&mut self, clamp: Clamp) -> (res: (String, String))
        ensures
            final(self).clamp == clamp,
            res.0@ == "clamp"@,
            res.1@ == clamp_text(clamp),
            final(self).screens == old(self).screens,
    {
        self.clamp = clamp;
        (text("clamp"), clamp_string(clamp))
    }

    /// Sets the scaling of the wallpaper of `screen`; gives the option to
    /// send: `scaling` with `<screen>,<scaling>`.
    pub fn set_scaling(&mut self, screen: &str, scaling: Scaling) -> (res: (String, String))
        requires
            old(self).well_formed(),
            screen_names(old(self).screens@).contains(screen@),
            forall|i: int| 0 <= i < old(self).screens@.len() && old(self).screens@[i].0@ == screen@
                ==> (#[trigger] old(self).screens@[i]).1 is Some,
        ensures
            res.0@ == "scaling"@,
            res.1@ == screen@ + ","@ + scaling_text(scaling),
            final(self).screens@.len() == old(self).screens@.len(),
            forall|i: int| 0 <= i < old(self).screens@.len() ==> (#[trigger] final(self).screens@[i]).0
                == old(self).screens@[i].0,
            forall|i: int| 0 <= i < old(self).screens@.len() && old(self).screens@[i].0@ != screen@
                ==> (#[trigger] final(self).screens@[i]) == old(self).screens@[i],
            forall|i: int| 0 <= i < old(self).screens@.len() && old(self).screens@[i].0@ == screen@
                ==> ((#[trigger] final(self).screens@[i]).1 matches Some(si) && si.scaling == scaling
                && si.id == old(self).screens@[i].1->0.id),
    {
        let i = match self.find_screen(screen) {
            Some(i) => i,
            None => {
                assert(false);
                0
            },
        };
        let ghost before = self.screens@;
        let (name, entry) = self.screens.remove(i);
        let id = match entry {
            Some(si) => si.id,
            None => {
                assert(false);
                String::new()
            },
        };
        self.screens.insert(i, (name, Some(ScreenInfo { id, scaling })));
        assert forall|j: int| 0 <= j < before.len() && before[j].0@ != screen@ implies (#[trigger] self.screens@[j]) == before[j] by {
            assert(j != i);
        }
        assert forall|j: int| 0 <= j < before.len() && before[j].0@ == screen@ implies ((#[trigger] self.screens@[j]).1 matches Some(si) && si.scaling == scaling
            && si.id == before[j].1->0.id) by {
            if j != i {
                assert(before[j].0@ == before[i as int].0@);
            }
        }
        let mut value = String::new();
        push_str(&mut value, screen);
        push_str(&mut value, ",");
        push_scaling(&mut value, scaling);
        (text("scaling"), value)
    }

    /// Turns `no_fullscreen_pause` on or off; gives the option to send:
    /// `fullscreen_pause`.
    pub fn set_no_fullscreen_pause(&mut self, no_fullscreen_pause: bool) -> (res: (String, String))
        ensures
            final(self).no_fullscreen_pause == no_fullscreen_pause,
            res.0@ == "fullscreen_pause"@,
            res.1@ == bool_text(no_fullscreen_pause),
            final(self).screens == old(self).screens,
    {
        self.no_fullscreen_pause = no_fullscreen_pause;
        (text("fullscreen_pause"), bool_string(no_fullscreen_pause))
    }
}

/// How many wallpapers of `wps` still need their preview image (a wallpaper
/// listed twice counts twice).
pub open spec fn needing_count(m: Map<Seq<char>, Wallpaper>, wps: Seq<WallpaperInfo>) -> nat
    decreases wps.len(),
{
    if wps.len() == 0 {
        0
    } else {
        (if needs_image(m, wps[0]) {
            1nat
        } else {
            0nat
        }) + needing_count(m, wps.drop_first())
    }
}

/// The ids of the wallpapers whose preview image is loaded.
pub open spec fn with_image_ids(m: Map<Seq<char>, Wallpaper>) -> Set<Seq<char>> {
    m.dom().filter(|k: Seq<char>| m[k].image is Some)
}

proof fn lemma_needing_count_bound(m: Map<Seq<char>, Wallpaper>, wps: Seq<WallpaperInfo>)
    ensures
        needing_count(m, wps) <= wps.len(),
        first_needing_image(m, wps) < 0 <==> needing_count(m, wps) == 0,
        first_needing_image(m, wps) < wps.len(),
    decreases wps.len(),
{
    if wps.len() > 0 {
        lemma_needing_count_bound(m, wps.drop_first());
    }
}

/// Once `m2` has the image of a wallpaper that needed one, a wallpaper that
/// needs its image in `m2` needed it in `m` already, so fewer need one.
proof fn lemma_needing_count_drops(
    m2: Map<Seq<char>, Wallpaper>,
    m: Map<Seq<char>, Wallpaper>,
    wp: WallpaperInfo,
    wps: Seq<WallpaperInfo>,
)
    requires
        needs_image(m, wp),
        is_with_image(m2, m, wp),
    ensures
        needing_count(m2, wps) <= needing_count(m, wps),
        wps.contains(wp) ==> needing_count(m2, wps) < needing_count(m, wps),
    decreases wps.len(),
{
    if wps.len() > 0 {
        let w = wps[0];
        let t = wps.drop_first();
        lemma_needing_count_drops(m2, m, wp, t);
        if w.id@ != wp.id@ {
            assert(m2.contains_key(w.id@) == m.contains_key(w.id@));
        }
        if wps.contains(wp) && w != wp {
            let j = choose|j: int| 0 <= j < wps.len() && wps[j] == wp;
            assert(t[j - 1] == wp);
        }
    }
}

/// Law: a call of `load_next_image` that loads an image keeps every
/// wallpaper the catalog had and every preview image already loaded, loads
/// exactly one more image, and leaves fewer of `wps` needing one; a call
/// that loads none changes nothing. At most `wps.len()` wallpapers of `wps`
/// need an image, and a call loads one exactly when some does.
pub proof fn law_load_next_image_progress(
    m: Map<Seq<char>, Wallpaper>,
    m2: Map<Seq<char>, Wallpaper>,
    wps: Seq<WallpaperInfo>,
)
    requires
        m.dom().finite(),
        first_needing_image(m, wps) >= 0,
        is_with_image(m2, m, wps[first_needing_image(m, wps)]),
    ensures
        needing_count(m, wps) <= wps.len(),
        forall|k: Seq<char>| #[trigger] m.contains_key(k) ==> m2.contains_key(k),
        forall|k: Seq<char>| #[trigger] m.contains_key(k) && m[k].image is Some ==> m2[k] == m[k],
        m2.dom().finite(),
        with_image_ids(m2).len() == with_image_ids(m).len() + 1,
        needing_count(m2, wps) < needing_count(m, wps),
{
    lemma_needing_count_bound(m, wps);
    let f = first_needing_image(m, wps);
    let wp = wps[f];
    lemma_first_needing_image_needs(m, wps);
    assert(wps.contains(wp));
    lemma_needing_count_drops(m2, m, wp, wps);
    let s = with_image_ids(m);
    let s2 = with_image_ids(m2);
    m.dom().lemma_len_filter(|k: Seq<char>| m[k].image is Some);
    assert(!s.contains(wp.id@));
    assert(s2 =~= s.insert(wp.id@));
    assert(m2.dom() =~= m.dom().insert(wp.id@));
}

/// The wallpaper that `first_needing_image` points at needs its image.
proof fn lemma_first_needing_image_needs(m: Map<Seq<char>, Wallpaper>, wps: Seq<WallpaperInfo>)
    ensures
        first_needing_image(m, wps) >= 0 ==> first_needing_image(m, wps) < wps.len()
            && needs_image(m, wps[first_needing_image(m, wps)]),
    decreases wps.len(),
{
    if wps.len() > 0 && !needs_image(m, wps[0]) {
        lemma_first_needing_image_needs(m, wps.drop_first());
    }
}

/// The number of `true` among `results`.
pub open spec fn true_count(results: Seq<bool>) -> nat
    decreases results.len(),
{
    if results.len() == 0 {
        0
    } else {
        (if results[0] {
            1nat
        } else {
            0nat
        }) + true_count(results.drop_first())
    }
}

/// Law: along a sequence of `load_next_image` calls on the same wallpapers
/// `wps`, catalog `ms[i]` becoming `ms[i + 1]` with result `results[i]` as
/// the function's contract says, at most `wps.len()` calls return `true`.
pub proof fn law_load_next_image_settles(
    ms: Seq<Map<Seq<char>, Wallpaper>>,
    results: Seq<bool>,
    wps: Seq<WallpaperInfo>,
)
    requires
        ms.len() == results.len() + 1,
        forall|i: int|
            0 <= i < results.len() ==> {
                &&& (first_needing_image(ms[i], wps) < 0 ==> !(#[trigger] results[i]) && ms[i + 1] == ms[i])
                &&& (first_needing_image(ms[i], wps) >= 0 ==> results[i] && is_with_image(
                    ms[i + 1],
                    ms[i],
                    wps[first_needing_image(ms[i], wps)],
                ))
            },
    ensures
        true_count(results) <= wps.len(),
{
    lemma_settles_from(ms, results, wps);
    lemma_needing_count_bound(ms[0], wps);
}

proof fn lemma_settles_from(
    ms: Seq<Map<Seq<char>, Wallpaper>>,
    results: Seq<bool>,
    wps: Seq<WallpaperInfo>,
)
    requires
        ms.len() == results.len() + 1,
        forall|i: int|
            0 <= i < results.len() ==> {
                &&& (first_needing_image(ms[i], wps) < 0 ==> !(#[trigger] results[i]) && ms[i + 1] == ms[i])
                &&& (first_needing_image(ms[i], wps) >= 0 ==> results[i] && is_with_image(
                    ms[i + 1],
                    ms[i],
                    wps[first_needing_image(ms[i], wps)],
                ))
            },
    ensures
        true_count(results) <= needing_count(ms[0], wps),
    decreases results.len(),
{
    if results.len() > 0 {
        let ms1 = ms.drop_first();
        let r1 = results.drop_first();
        assert forall|i: int| 0 <= i < r1.len() implies {
            &&& (first_needing_image(ms1[i], wps) < 0 ==> !(#[trigger] r1[i]) && ms1[i + 1] == ms1[i])
            &&& (first_needing_image(ms1[i], wps) >= 0 ==> r1[i] && is_with_image(
                ms1[i + 1],
                ms1[i],
                wps[first_needing_image(ms1[i], wps)],
            ))
        } by {
            assert(r1[i] == results[i + 1]);
            assert(ms1[i] == ms[i + 1]);
            assert(ms1[i + 1] == ms[i + 2]);
        }
        lemma_settles_from(ms1, r1, wps);
        assert(ms1[0] == ms[1]);
        assert(results[0] == (first_needing_image(ms[0], wps) >= 0));
        if results[0] {
            let f = first_needing_image(ms[0], wps);
            lemma_first_needing_image_needs(ms[0], wps);
            assert(wps.contains(wps[f]));
            lemma_needing_count_drops(ms[1], ms[0], wps[f], wps);
        }
    }
}

/// Loading wallpapers whose ids are all known changes nothing.
proof fn lemma_load_all_known(m: Map<Seq<char>, Wallpaper>, wps: Seq<WallpaperInfo>)
    requires
        forall|j: int| 0 <= j < wps.len() ==> m.contains_key(#[trigger] wps[j].id@),
    ensures
        spec_load_all(m, wps) == m,
    decreases wps.len(),
{
    if wps.len() > 0 {
        let init = wps.drop_last();
        assert forall|j: int| 0 <= j < init.len() implies m.contains_key(#[trigger] init[j].id@) by {
            assert(init[j] == wps[j]);
        }
        lemma_load_all_known(m, init);
        assert(m.contains_key(wps[wps.len() - 1].id@));
    }
}

/// Law: loading never changes a wallpaper the catalog already had, and
/// loading the same wallpapers a second time adds nothing (so the second
/// `load_all_wallpapers` tells that none was added).
pub proof fn law_load_all_keeps_and_settles(m: Map<Seq<char>, Wallpaper>, wps: Seq<WallpaperInfo>)
    ensures
        forall|k: Seq<char>| #[trigger] m.contains_key(k) ==> spec_load_all(m, wps).contains_key(k)
            && spec_load_all(m, wps)[k] == m[k],
        forall|j: int| 0 <= j < wps.len() ==> spec_load_all(m, wps).contains_key(#[trigger] wps[j].id@),
        spec_load_all(spec_load_all(m, wps), wps) == spec_load_all(m, wps),
    decreases wps.len(),
{
    let m1 = spec_load_all(m, wps);
    if wps.len() > 0 {
        law_load_all_keeps_and_settles(m, wps.drop_last());
    }
    assert forall|j: int| 0 <= j < wps.len() implies m1.contains_key(#[trigger] wps[j].id@) by {
        lemma_load_all_dom(m, wps, wps[j].id@);
    }
    lemma_load_all_known(m1, wps);
}

} // verus!
