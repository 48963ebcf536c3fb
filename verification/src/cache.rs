//! The galleries held in memory, by directory: filled on first use, and
//! emptied of a gallery whenever one of its captions changes.

use vstd::prelude::*;

use crate::photos::{gallery, times_valid, times_wf, with_caption, Image, ImageView};
use crate::text::{chars_of, same_text, to_string};

verus! {

/// The galleries that are held in memory, by the path of their directory.
#[derive(Debug)]
pub struct GalleryCache {
    entries: Vec<(String, Vec<Image>)>,
}

/// The map that a list of entries stands for: each entry inserted in turn.
pub open spec fn cache_of(entries: Seq<(String, Vec<Image>)>) -> Map<Seq<char>, Seq<ImageView>>
    decreases entries.len(),
{
    if entries.len() == 0 {
        Map::empty()
    } else {
        cache_of(entries.drop_last()).insert(entries.last().0@, gallery(entries.last().1@))
    }
}

/// Without an entry for `dir`, the map has no value for it.
pub proof fn lemma_cache_without(entries: Seq<(String, Vec<Image>)>, dir: Seq<char>)
    requires
        forall|j: int| 0 <= j < entries.len() ==> (#[trigger] entries[j]).0@ != dir,
    ensures
        !cache_of(entries).contains_key(dir),
    decreases entries.len(),
{
    if entries.len() > 0 {
        assert(entries.last().0@ != dir);
        assert forall|j: int| 0 <= j < entries.drop_last().len() implies (
        #[trigger] entries.drop_last()[j]).0@ != dir by {
            assert(entries.drop_last()[j] == entries[j]);
        }
        lemma_cache_without(entries.drop_last(), dir);
    }
}

/// Taking out an entry for `dir` changes nothing once `dir` is removed.
pub proof fn lemma_cache_remove(entries: Seq<(String, Vec<Image>)>, i: int, dir: Seq<char>)
    requires
        0 <= i < entries.len(),
        entries[i].0@ == dir,
    ensures
        cache_of(entries.remove(i)).remove(dir) == cache_of(entries).remove(dir),
    decreases entries.len(),
{
    let last = entries.last();
    let rest = entries.drop_last();
    if i == entries.len() - 1 {
        assert(entries.remove(i) =~= rest);
        assert(cache_of(entries).remove(dir) =~= cache_of(rest).remove(dir));
    } else {
        lemma_cache_remove(rest, i, dir);
        assert(entries.remove(i).drop_last() =~= rest.remove(i));
        assert(entries.remove(i).last() == last);
        let x = cache_of(rest.remove(i));
        let y = cache_of(rest);
        let k = last.0@;
        let v = gallery(last.1@);
        if k == dir {
            assert(x.insert(k, v).remove(dir) =~= x.remove(dir));
            assert(y.insert(k, v).remove(dir) =~= y.remove(dir));
        } else {
            assert(x.insert(k, v).remove(dir) =~= x.remove(dir).insert(k, v));
            assert(y.insert(k, v).remove(dir) =~= y.remove(dir).insert(k, v));
        }
    }
}

/// What a read of the gallery in `dir` sees: the gallery held in memory
/// where there is one, else the one that is stored, if any.
pub open spec fn served(
    cache: Map<Seq<char>, Seq<ImageView>>,
    stored: Option<Seq<ImageView>>,
    dir: Seq<char>,
) -> Option<Seq<ImageView>> {
    if cache.contains_key(dir) {
        Some(cache[dir])
    } else {
        stored
    }
}

/// The gallery that a load brings: the records it read, unless one of them
/// has a time that does not exist.
pub open spec fn taken(loaded: Option<Vec<Image>>) -> Option<Seq<ImageView>> {
    match loaded {
        Some(images) => if times_wf(images@) {
            Some(gallery(images@))
        } else {
            None
        },
        None => None,
    }
}

/// What a read handed out, as a gallery.
pub open spec fn read(r: Option<&Vec<Image>>) -> Option<Seq<ImageView>> {
    match r {
        Some(images) => Some(gallery(images@)),
        None => None,
    }
}

/// Once a caption was set in the stored records of a gallery and the gallery
/// held in memory was forgotten, the next read of that gallery sees the new
/// caption, whatever the cache held before.
pub proof fn lemma_read_after_caption(
    cache: Map<Seq<char>, Seq<ImageView>>,
    stored: Seq<ImageView>,
    dir: Seq<char>,
    index: int,
    caption: Seq<char>,
)
    requires
        0 <= index < stored.len(),
    ensures
        served(cache.remove(dir), Some(with_caption(stored, index, caption)), dir) == Some(
            with_caption(stored, index, caption),
        ),
        with_caption(stored, index, caption).len() == stored.len(),
        with_caption(stored, index, caption)[index].caption == caption,
{
}

impl View for GalleryCache {
    type V = Map<Seq<char>, Seq<ImageView>>;

    closed spec fn view(&self) -> Map<Seq<char>, Seq<ImageView>> {
        cache_of(self.entries@)
    }
}

impl GalleryCache {
    /// Whether every time of every gallery held names a day that exists and
    /// a time on it.
    pub closed spec fn wf(&self) -> bool {
        forall|i: int| 0 <= i < self.entries@.len() ==> times_wf((#[trigger] self.entries@[i]).1@)
    }

    /// A cache that holds no gallery.
    pub fn new() -> (c: GalleryCache)
        ensures
            c@ == Map::<Seq<char>, Seq<ImageView>>::empty(),
            c.wf(),
    {
        GalleryCache { entries: Vec::new() }
    }

    /// The gallery held for `dir`, if any.
    pub fn get(&self, dir: &str) -> (r: Option<&Vec<Image>>)
        ensures
            match r {
                Some(images) => self@.contains_key(dir@) && self@[dir@] == gallery(images@) && (
                self.wf() ==> times_wf(images@)),
                None => !self@.contains_key(dir@),
            },
    {
        let mut i: usize = self.entries.len();
        let ghost all = self.entries@;
        assert(all.take(i as int) =~= all);
        while i > 0
            invariant
                i <= self.entries.len(),
                all == self.entries@,
                cache_of(all).contains_key(dir@) == cache_of(all.take(i as int)).contains_key(
                    dir@,
                ),
                cache_of(all).contains_key(dir@) ==> cache_of(all)[dir@] == cache_of(
                    all.take(i as int),
                )[dir@],
            decreases i,
        {
            i -= 1;
            proof {
                assert(all.take(i + 1).drop_last() =~= all.take(i as int));
                assert(all.take(i + 1).last() == all[i as int]);
            }
            if same_text(self.entries[i].0.as_str(), dir) {
                return Some(&self.entries[i].1);
            }
        }
        assert(all.take(0) =~= Seq::empty());
        None
    }

    /// Holds `images` as the gallery of `dir`, in place of any other.
    pub fn insert(&mut self, dir: String, images: Vec<Image>)
        requires
            old(self).wf(),
            times_wf(images@),
        ensures
            final(self)@ == old(self)@.insert(dir@, gallery(images@)),
            final(self).wf(),
    {
        let ghost before = self.entries@;
        self.entries.push((dir, images));
        assert(self.entries@.drop_last() =~= before);
    }

    /// Forgets the gallery of `dir`, so that the next read loads it anew.
    pub fn invalidate(&mut self, dir: &str)
        ensures
            final(self)@ == old(self)@.remove(dir@),
            old(self).wf() ==> final(self).wf(),
    {
        let mut i: usize = 0;
        while i < self.entries.len()
            invariant
                i <= self.entries.len(),
                old(self).wf() ==> self.wf(),
                cache_of(self.entries@).remove(dir@) == old(self)@.remove(dir@),
                forall|j: int| 0 <= j < i ==> (#[trigger] self.entries@[j]).0@ != dir@,
            decreases self.entries.len() - i,
        {
            if same_text(self.entries[i].0.as_str(), dir) {
                proof {
                    lemma_cache_remove(self.entries@, i as int, dir@);
                }
                self.entries.remove(i);
            } else {
                i += 1;
            }
        }
        proof {
            lemma_cache_without(self.entries@, dir@);
            assert(cache_of(self.entries@).remove(dir@) =~= cache_of(self.entries@));
        }
    }

    /// The gallery of `dir`: the one held in memory where there is one, else
    /// the one that `load` brings, which is then held. `load` is called only
    /// where none is held. Where it brings none, or one with a time that does
    /// not exist, there is no gallery and the cache stays as it is.
    pub fn get_or_load<F: FnOnce() -> Option<Vec<Image>>>(&mut self, dir: &str, load: F) -> (r:
        Option<&Vec<Image>>)
        requires
            old(self).wf(),
            call_requires(load, ()),
        ensures
            final(self).wf(),
            r matches Some(images) ==> times_wf(images@),
            exists|loaded: Option<Vec<Image>>|
                #![auto]
                {
                    &&& old(self)@.contains_key(dir@) || call_ensures(load, (), loaded)
                    &&& read(r) == served(old(self)@, taken(loaded), dir@)
                    &&& final(self)@ == match read(r) {
                        Some(g) => old(self)@.insert(dir@, g),
                        None => old(self)@,
                    }
                },
    {
        if self.get(dir).is_none() {
            let loaded = load();
            match loaded {
                Some(images) => {
                    if !times_valid(&images) {
                        assert(call_ensures(load, (), loaded) && taken(loaded) is None);
                        return None;
                    }
                    let ghost held = gallery(images@);
                    self.insert(to_string(&chars_of(dir)), images);
                    let r = self.get(dir);
                    assert(call_ensures(load, (), loaded) && taken(loaded) == Some(held) && read(r)
                        == Some(held));
                    r
                },
                None => {
                    assert(call_ensures(load, (), loaded) && taken(loaded) is None);
                    None
                },
            }
        } else {
            let r = self.get(dir);
            assert(read(r) == served(self@, taken(None), dir@));
            assert(self@.insert(dir@, self@[dir@]) =~= self@);
            r
        }
    }
}

} // verus!
