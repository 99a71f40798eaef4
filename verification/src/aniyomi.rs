//! The metadata record written beside a downloaded gallery for reader
//! apps: title, artist, and the remaining tags as genre lines. Rendering
//! it to a sidecar file is an outer concern.

use vstd::prelude::*;
use vstd::string::StringExecFns;
use crate::gallery::{Gallery, Tag, TagType, TagV, tag_type_name};

verus! {

/// The metadata of one gallery, ready to be rendered.
pub struct AniyomiMeta {
    title: String,
    artist: String,
    tags: Vec<Tag>,
}

/// The mathematical value of a metadata record.
pub struct AniyomiMetaV {
    pub title: Seq<char>,
    pub artist: Seq<char>,
    pub tags: Seq<TagV>,
}

impl View for AniyomiMeta {
    type V = AniyomiMetaV;

    closed spec fn view(&self) -> AniyomiMetaV {
        AniyomiMetaV {
            title: self.title@,
            artist: self.artist@,
            tags: self.tags@.map_values(|t: Tag| t@),
        }
    }
}

/// The genre lines of a tag list: every tag that is not the artist,
/// rendered as its kind, a separator, and its value, in order.
pub open spec fn genre_lines_of(tags: Seq<TagV>, i: int) -> Seq<Seq<char>>
    decreases i,
{
    if i <= 0 {
        Seq::empty()
    } else {
        let rest = genre_lines_of(tags, i - 1);
        if tags[i - 1].t_type == TagType::Artist {
            rest
        } else {
            rest.push(tag_type_name(tags[i - 1].t_type) + ": "@ + tags[i - 1].t_val)
        }
    }
}

impl AniyomiMeta {
    pub fn new(title: String, artist: String, tags: Vec<Tag>) -> (r: Self)
        ensures
            r@.title == title@,
            r@.artist == artist@,
            r@.tags == tags@.map_values(|t: Tag| t@),
    {
        AniyomiMeta { title, artist, tags }
    }

    /// The record for one gallery: its title, the value of its first
    /// artist tag, and all of its tags.
    pub fn from_gallery(g: &Gallery) -> (r: AniyomiMeta)
        requires
            exists|i: int| 0 <= i < g@.tags.len() && (#[trigger] g@.tags[i]).t_type
                == TagType::Artist,
        ensures
            r@.title == g@.title,
            r@.tags == g@.tags,
            exists|i: int|
                0 <= i < g@.tags.len() && (#[trigger] g@.tags[i]).t_type == TagType::Artist
                    && r@.artist == g@.tags[i].t_val && forall|j: int|
                    0 <= j < i ==> (#[trigger] g@.tags[j]).t_type != TagType::Artist,
    {
        let tag_vec = g.tags().into_vec();
        let mut i: usize = 0;
        let n = tag_vec.len();
        while i < n
            invariant
                i <= n,
                n == tag_vec@.len(),
                tag_vec@.map_values(|t: Tag| t@) == g@.tags,
                exists|k: int| 0 <= k < g@.tags.len() && (#[trigger] g@.tags[k]).t_type
                    == TagType::Artist,
                forall|j: int| 0 <= j < i ==> (#[trigger] g@.tags[j]).t_type != TagType::Artist,
            decreases n - i,
        {
            let t = &tag_vec[i];
            proof {
                assert(t@ == g@.tags[i as int]);
            }
            if *t.tag_type() == TagType::Artist {
                let artist = t.tag_value().clone();
                return AniyomiMeta::new(g.title().clone(), artist, tag_vec);
            }
            i += 1;
        }
        proof {
            let k = choose|k: int|
                0 <= k < g@.tags.len() && (#[trigger] g@.tags[k]).t_type == TagType::Artist;
            assert(false);
        }
        AniyomiMeta::new(String::new(), String::new(), Vec::new())
    }

    /// The genre lines of this record: each non-artist tag as one line.
    pub fn genre_lines(&self) -> (r: Vec<String>)
        ensures
            r@.map_values(|s: String| s@) == genre_lines_of(self@.tags, self@.tags.len() as int),
    {
        let mut out: Vec<String> = Vec::new();
        let mut i: usize = 0;
        let n = self.tags.len();
        proof {
            assert(out@.map_values(|s: String| s@) =~= genre_lines_of(self@.tags, 0));
        }
        while i < n
            invariant
                i <= n,
                n == self.tags@.len(),
                self.tags@.map_values(|t: Tag| t@) == self@.tags,
                out@.map_values(|s: String| s@) == genre_lines_of(self@.tags, i as int),
            decreases n - i,
        {
            let t = &self.tags[i];
            proof {
                assert(t@ == self@.tags[i as int]);
            }
            if !(*t.tag_type() == TagType::Artist) {
                let ghost map0 = out@.map_values(|s: String| s@);
                let line = t.tag_type().name().concat(": ").concat(t.tag_value().as_str());
                out.push(line);
                proof {
                    assert(out@.map_values(|s: String| s@) =~= map0.push(
                        tag_type_name(self@.tags[i as int].t_type) + ": "@
                            + self@.tags[i as int].t_val,
                    ));
                }
            }
            i += 1;
        }
        out
    }

    pub fn title(&self) -> (r: &String)
        ensures
            r@ == self@.title,
    {
        &self.title
    }

    pub fn artist(&self) -> (r: &String)
        ensures
            r@ == self@.artist,
    {
        &self.artist
    }
}

} // verus!
