//! The glyph cache: rasterized glyphs, kept by key and made on first use.

use crate::glyph::{lemma_pack_injective, EntryModel, Font, FontModel, GlyphEntry, GlyphError, GlyphKey};
use std::collections::HashMap;
use vstd::prelude::*;

verus! {

broadcast use vstd::std_specs::hash::group_hash_axioms;

/// The glyph that a key stands for among the registered fonts, or the reason
/// why there is none. It depends on the key and on the key's font alone.
pub open spec fn lookup_spec(fonts: Seq<FontModel>, key: GlyphKey) -> Result<EntryModel, GlyphError> {
    if key.font >= fonts.len() {
        Err(GlyphError::UnknownFont(key.font))
    } else {
        fonts[key.font as int].rasterize_spec(key.size, key.ch)
    }
}

/// A memo table of rasterized glyphs, together with the fonts they come from.
/// Fonts are only ever added, and an identifier keeps its font.
pub struct GlyphCache {
    fonts: Vec<Font>,
    entries: HashMap<u64, GlyphEntry>,
}

impl GlyphCache {
    /// The registered fonts; a font's identifier is its place in this
    /// sequence.
    pub closed spec fn fonts(&self) -> Seq<FontModel> {
        Seq::new(self.fonts@.len(), |i: int| self.fonts@[i]@)
    }

    /// The cache holds an entry for `key`.
    pub closed spec fn cached(&self, key: GlyphKey) -> bool {
        self.entries@.contains_key(key.pack_spec())
    }

    /// The number of entries that the cache holds.
    pub closed spec fn cached_count(&self) -> nat {
        self.entries@.len()
    }

    /// The invariant of the type: identifiers fit 16 bits, every font is well
    /// formed, and every entry is the glyph that its key stands for.
    pub closed spec fn wf(&self) -> bool {
        &&& self.fonts@.len() <= 0x1_0000
        &&& forall|i: int| 0 <= i < self.fonts@.len() ==> (#[trigger] self.fonts@[i])@.wf()
        &&& forall|key: GlyphKey| #[trigger]
            self.entries@.contains_key(key.pack_spec()) ==> self.entries@[key.pack_spec()].wf()
                && lookup_spec(self.fonts(), key) == Ok::<EntryModel, GlyphError>(
                self.entries@[key.pack_spec()]@,
            )
    }

    /// A cache without fonts and without entries.
    pub fn new() -> (cache: GlyphCache)
        ensures
            cache.wf(),
            cache.fonts() == Seq::<FontModel>::empty(),
            cache.cached_count() == 0,
            forall|key: GlyphKey| !cache.cached(key),
    {
        let cache = GlyphCache { fonts: Vec::new(), entries: HashMap::new() };
        assert(cache.fonts() =~= Seq::<FontModel>::empty());
        cache
    }

    /// Registers a font and returns its identifier, the number of fonts that
    /// were registered before it. Returns `None`, and changes nothing, once
    /// 65536 fonts are registered. The entries stay as they are.
    pub fn add_font(&mut self, font: Font) -> (id: Option<u16>)
        requires
            old(self).wf(),
            font@.wf(),
        ensures
            final(self).wf(),
            forall|key: GlyphKey| final(self).cached(key) == old(self).cached(key),
            final(self).cached_count() == old(self).cached_count(),
            old(self).fonts().len() >= 0x1_0000 ==> id is None && final(self).fonts() == old(
                self,
            ).fonts(),
            old(self).fonts().len() < 0x1_0000 ==> id == Some(old(self).fonts().len() as u16)
                && final(self).fonts() == old(self).fonts().push(font@),
    {
        let count = self.fonts.len();
        if count >= 0x1_0000 {
            return None;
        }
        let ghost model = font@;
        self.fonts.push(font);
        proof {
            assert(self.fonts() =~= old(self).fonts().push(model));
            assert forall|key: GlyphKey| #[trigger]
                self.entries@.contains_key(key.pack_spec()) implies lookup_spec(self.fonts(), key)
                == Ok::<EntryModel, GlyphError>(self.entries@[key.pack_spec()]@) by {
                assert(lookup_spec(old(self).fonts(), key) == Ok::<EntryModel, GlyphError>(
                    self.entries@[key.pack_spec()]@,
                ));
            }
        }
        Some(count as u16)
    }

    /// The number of registered fonts.
    pub fn font_count(&self) -> (count: usize)
        ensures
            count == self.fonts().len(),
    {
        self.fonts.len()
    }

    /// The number of entries that the cache holds.
    pub fn len(&self) -> (count: usize)
        ensures
            count == self.cached_count(),
    {
        self.entries.len()
    }

    /// Tells whether the cache holds an entry for the key.
    pub fn contains(&self, font: u16, size: u16, ch: char) -> (held: bool)
        ensures
            held == self.cached(GlyphKey { font, size, ch }),
    {
        let key = GlyphKey { font, size, ch };
        let packed = key.pack();
        self.entries.contains_key(&packed)
    }

    /// The glyph for the key: the cached entry if there is one; else the glyph
    /// is rasterized from its font and kept. The result is the same whether or
    /// not the entry was cached, and a failure is never cached.
    pub fn get_or_rasterize(&mut self, font: u16, size: u16, ch: char) -> (result: Result<
        GlyphEntry,
        GlyphError,
    >)
        requires
            old(self).wf(),
        ensures
            final(self).wf(),
            final(self).fonts() == old(self).fonts(),
            result matches Ok(entry) ==> entry.wf() && lookup_spec(
                old(self).fonts(),
                GlyphKey { font, size, ch },
            ) == Ok::<EntryModel, GlyphError>(entry@),
            result matches Err(error) ==> lookup_spec(old(self).fonts(), GlyphKey { font, size, ch })
                == Err::<EntryModel, GlyphError>(error),
            forall|other: GlyphKey|
                #[trigger] final(self).cached(other) == (old(self).cached(other) || (result is Ok
                    && other == (GlyphKey { font, size, ch }))),
            final(self).cached_count() == old(self).cached_count() + if result is Ok && !old(
                self,
            ).cached(GlyphKey { font, size, ch }) {
                1nat
            } else {
                0nat
            },
    {
        let key = GlyphKey { font, size, ch };
        let packed = key.pack();
        match self.entries.get(&packed) {
            Some(entry) => {
                return Ok(entry.clone());
            },
            None => {},
        }
        if font as usize >= self.fonts.len() {
            return Err(GlyphError::UnknownFont(font));
        }
        assert(self.fonts()[font as int] == self.fonts@[font as int]@);
        let entry = match self.fonts[font as usize].rasterize(size, ch) {
            Ok(entry) => entry,
            Err(error) => {
                return Err(error);
            },
        };
        let copy = entry.clone();
        self.entries.insert(packed, entry);
        proof {
            assert(self.fonts() =~= old(self).fonts());
            assert forall|other: GlyphKey| #[trigger]
                self.entries@.contains_key(other.pack_spec()) implies self.entries@[other.pack_spec()].wf()
                && lookup_spec(self.fonts(), other) == Ok::<EntryModel, GlyphError>(
                self.entries@[other.pack_spec()]@,
            ) by {
                if other.pack_spec() == packed {
                    lemma_pack_injective(other, key);
                } else {
                    assert(old(self).entries@.contains_key(other.pack_spec()));
                }
            }
            assert forall|other: GlyphKey|
                #[trigger] self.cached(other) == (old(self).cached(other) || other == key) by {
                if other.pack_spec() == packed {
                    lemma_pack_injective(other, key);
                }
            }
        }
        Ok(copy)
    }

    /// The eviction hook: drops the entry for the key, if there is one, and
    /// tells whether there was. The glyph is rasterized again when it is next
    /// asked for.
    pub fn evict(&mut self, font: u16, size: u16, ch: char) -> (evicted: bool)
        requires
            old(self).wf(),
        ensures
            final(self).wf(),
            final(self).fonts() == old(self).fonts(),
            evicted == old(self).cached(GlyphKey { font, size, ch }),
            forall|other: GlyphKey|
                #[trigger] final(self).cached(other) == (old(self).cached(other) && other != (
                GlyphKey { font, size, ch })),
            final(self).cached_count() == old(self).cached_count() - if evicted {
                1nat
            } else {
                0nat
            },
    {
        let key = GlyphKey { font, size, ch };
        let packed = key.pack();
        let removed = self.entries.remove(&packed);
        proof {
            assert(self.fonts() =~= old(self).fonts());
            assert forall|other: GlyphKey|
                #[trigger] self.cached(other) == (old(self).cached(other) && other != key) by {
                if other.pack_spec() == packed {
                    lemma_pack_injective(other, key);
                }
            }
        }
        removed.is_some()
    }

    /// Drops every entry; the fonts stay registered.
    pub fn clear(&mut self)
        requires
            old(self).wf(),
        ensures
            final(self).wf(),
            final(self).fonts() == old(self).fonts(),
            final(self).cached_count() == 0,
            forall|key: GlyphKey| !final(self).cached(key),
    {
        self.entries.clear();
        proof {
            assert(self.fonts() =~= old(self).fonts());
        }
    }
}

/// Registering more fonts changes no glyph of the fonts that are registered
/// already.
pub proof fn lemma_lookup_stable(fonts: Seq<FontModel>, more: Seq<FontModel>, key: GlyphKey)
    requires
        key.font < fonts.len(),
    ensures
        lookup_spec(fonts + more, key) == lookup_spec(fonts, key),
{
}

} // verus!
