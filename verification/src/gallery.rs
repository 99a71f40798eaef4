//! The data model of one gallery: an ordered list of images to fetch, a
//! title, and the tags found on the gallery page.

use vstd::prelude::*;
use vstd::string::StrSliceExecFns;

verus! {

/// One named collection of resources, acquired and optionally archived
/// together.
#[derive(Debug)]
pub struct Gallery {
    title: String,
    image_count: u8,
    images: Vec<Image>,
    tags: Tags,
}

/// A resource descriptor: the remote location of one image and the local
/// name to give it. Immutable once handed to the worker pool.
#[derive(Debug)]
pub struct Image {
    url: String,
    file: String,
}

/// One tag of a gallery: a kind and a value.
#[derive(Debug)]
pub struct Tag {
    t_type: TagType,
    t_val: String,
}

/// The tags of one gallery, in the order they were added.
#[derive(Debug)]
pub struct Tags {
    _inner: Vec<Tag>,
}

/// The kinds of tag a gallery page may carry.
#[derive(Debug, PartialEq, Eq, Structural, Clone, Copy)]
pub enum TagType {
    ReClass,
    Parody,
    Character,
    Language,
    Artist,
    Male,
    Female,
    Other,
}

/// The mathematical value of an `Image`.
pub struct ImageV {
    pub url: Seq<char>,
    pub file: Seq<char>,
}

/// The mathematical value of a `Tag`.
pub struct TagV {
    pub t_type: TagType,
    pub t_val: Seq<char>,
}

/// The mathematical value of a `Gallery`.
pub struct GalleryV {
    pub title: Seq<char>,
    pub image_count: u8,
    pub images: Seq<ImageV>,
    pub tags: Seq<TagV>,
}

impl View for Image {
    type V = ImageV;

    closed spec fn view(&self) -> ImageV {
        ImageV { url: self.url@, file: self.file@ }
    }
}

impl View for Tag {
    type V = TagV;

    closed spec fn view(&self) -> TagV {
        TagV { t_type: self.t_type, t_val: self.t_val@ }
    }
}

impl View for Tags {
    type V = Seq<TagV>;

    closed spec fn view(&self) -> Seq<TagV> {
        self._inner@.map_values(|t: Tag| t@)
    }
}

impl View for Gallery {
    type V = GalleryV;

    closed spec fn view(&self) -> GalleryV {
        GalleryV {
            title: self.title@,
            image_count: self.image_count,
            images: self.images@.map_values(|i: Image| i@),
            tags: self.tags@,
        }
    }
}

/// The lower-case code point of a character, for case-insensitive
/// comparison of ASCII tag names.
pub open spec fn lower_u32(c: char) -> u32 {
    if 'A' <= c <= 'Z' {
        (c as u32 + 32) as u32
    } else {
        c as u32
    }
}

/// A name sequence folded to lower case, as code points.
pub open spec fn seq_lower_u32(s: Seq<char>) -> Seq<u32> {
    s.map_values(|c: char| lower_u32(c))
}

/// The canonical lower-case name of each tag kind.
pub open spec fn tag_type_name(t: TagType) -> Seq<char> {
    match t {
        TagType::ReClass => "reclass"@,
        TagType::Parody => "parody"@,
        TagType::Character => "character"@,
        TagType::Language => "language"@,
        TagType::Artist => "artist"@,
        TagType::Male => "male"@,
        TagType::Female => "female"@,
        TagType::Other => "other"@,
    }
}

/// Which tag kind a raw tag name denotes, compared without regard to ASCII
/// case; anything unknown is `Other`.
pub open spec fn tag_type_of(name: Seq<char>) -> TagType {
    if seq_lower_u32(name) == seq_lower_u32("reclass"@) {
        TagType::ReClass
    } else if seq_lower_u32(name) == seq_lower_u32("parody"@) {
        TagType::Parody
    } else if seq_lower_u32(name) == seq_lower_u32("character"@) {
        TagType::Character
    } else if seq_lower_u32(name) == seq_lower_u32("language"@) {
        TagType::Language
    } else if seq_lower_u32(name) == seq_lower_u32("artist"@) {
        TagType::Artist
    } else if seq_lower_u32(name) == seq_lower_u32("male"@) {
        TagType::Male
    } else if seq_lower_u32(name) == seq_lower_u32("female"@) {
        TagType::Female
    } else {
        TagType::Other
    }
}

/// True when the two names are the same up to ASCII case.
fn eq_lower(a: &str, b: &str) -> (r: bool)
    ensures
        r == (seq_lower_u32(a@) == seq_lower_u32(b@)),
{
    let na = a.unicode_len();
    let nb = b.unicode_len();
    if na != nb {
        proof {
            assert(seq_lower_u32(a@).len() == a@.len());
            assert(seq_lower_u32(b@).len() == b@.len());
        }
        return false;
    }
    let mut i: usize = 0;
    while i < na
        invariant
            i <= na,
            na == a@.len(),
            na == b@.len(),
            forall|j: int| 0 <= j < i ==> seq_lower_u32(a@)[j] == seq_lower_u32(b@)[j],
        decreases na - i,
    {
        let ca = a.get_char(i);
        let cb = b.get_char(i);
        let la: u32 = if 'A' <= ca && ca <= 'Z' {
            ca as u32 + 32
        } else {
            ca as u32
        };
        let lb: u32 = if 'A' <= cb && cb <= 'Z' {
            cb as u32 + 32
        } else {
            cb as u32
        };
        if la != lb {
            proof {
                assert(seq_lower_u32(a@)[i as int] == lower_u32(a@[i as int]));
                assert(seq_lower_u32(b@)[i as int] == lower_u32(b@[i as int]));
            }
            return false;
        }
        i += 1;
    }
    proof {
        assert(seq_lower_u32(a@) =~= seq_lower_u32(b@));
    }
    true
}

impl TagType {
    /// The tag kind named by `name`, compared without regard to ASCII case.
    pub fn of_name(name: &str) -> (r: TagType)
        ensures
            r == tag_type_of(name@),
    {
        if eq_lower(name, "reclass") {
            TagType::ReClass
        } else if eq_lower(name, "parody") {
            TagType::Parody
        } else if eq_lower(name, "character") {
            TagType::Character
        } else if eq_lower(name, "language") {
            TagType::Language
        } else if eq_lower(name, "artist") {
            TagType::Artist
        } else if eq_lower(name, "male") {
            TagType::Male
        } else if eq_lower(name, "female") {
            TagType::Female
        } else {
            TagType::Other
        }
    }

    /// The canonical lower-case name of this tag kind.
    pub fn name(&self) -> (r: String)
        ensures
            r@ == tag_type_name(*self),
    {
        match self {
            TagType::ReClass => "reclass".to_owned(),
            TagType::Parody => "parody".to_owned(),
            TagType::Character => "character".to_owned(),
            TagType::Language => "language".to_owned(),
            TagType::Artist => "artist".to_owned(),
            TagType::Male => "male".to_owned(),
            TagType::Female => "female".to_owned(),
            TagType::Other => "other".to_owned(),
        }
    }
}

impl From<String> for TagType {
    fn from(value: String) -> (r: TagType) {
        TagType::of_name(value.as_str())
    }
}

impl vstd::std_specs::convert::FromSpecImpl<String> for TagType {
    open spec fn obeys_from_spec() -> bool {
        true
    }

    open spec fn from_spec(v: String) -> TagType {
        tag_type_of(v@)
    }
}

impl Clone for Image {
    fn clone(&self) -> (r: Self)
        ensures
            r == *self,
    {
        Image { url: self.url.clone(), file: self.file.clone() }
    }
}

impl Image {
    /// A descriptor for the remote object at `url`, with no local name yet.
    pub fn new(url: &String) -> (r: Self)
        ensures
            r@.url == url@,
            r@.file == Seq::<char>::empty(),
    {
        Image { url: url.clone(), file: String::new() }
    }

    pub fn set_filename(&mut self, file: String)
        ensures
            final(self)@ == (ImageV { file: file@, ..old(self)@ }),
    {
        self.file = file;
    }

    pub fn get_filename(&self) -> (r: &String)
        ensures
            r@ == self@.file,
    {
        &self.file
    }

    pub fn set_url(&mut self, url: String)
        ensures
            final(self)@ == (ImageV { url: url@, ..old(self)@ }),
    {
        self.url = url;
    }

    pub fn get_url(&self) -> (r: &String)
        ensures
            r@ == self@.url,
    {
        &self.url
    }
}

impl Clone for Tag {
    fn clone(&self) -> (r: Self)
        ensures
            r == *self,
    {
        Tag { t_type: self.t_type, t_val: self.t_val.clone() }
    }
}

impl Tag {
    /// The value of this tag.
    pub fn tag_value(&self) -> (r: &String)
        ensures
            r@ == self@.t_val,
    {
        &self.t_val
    }

    /// The kind of this tag.
    pub fn tag_type(&self) -> (r: &TagType)
        ensures
            *r == self@.t_type,
    {
        &self.t_type
    }
}

impl Clone for Tags {
    fn clone(&self) -> (r: Self)
        ensures
            r@ == self@,
    {
        let mut out: Vec<Tag> = Vec::new();
        let mut i: usize = 0;
        while i < self._inner.len()
            invariant
                i <= self._inner.len(),
                out@.len() == i,
                forall|j: int| 0 <= j < i ==> out@[j] == self._inner@[j],
            decreases self._inner.len() - i,
        {
            out.push(self._inner[i].clone());
            i += 1;
        }
        proof {
            assert(out@ =~= self._inner@);
        }
        Tags { _inner: out }
    }
}

impl Tags {
    fn new() -> (r: Self)
        ensures
            r@ == Seq::<TagV>::empty(),
    {
        proof {
            assert(Seq::<Tag>::empty().map_values(|t: Tag| t@) =~= Seq::<TagV>::empty());
        }
        Tags { _inner: Vec::new() }
    }

    /// The tags as a vector, in the order they were added.
    pub fn inner(&self) -> (r: &Vec<Tag>)
        ensures
            r@.map_values(|t: Tag| t@) == self@,
    {
        &self._inner
    }

    fn push(&mut self, tag: Tag)
        ensures
            final(self)@ == old(self)@.push(tag@),
    {
        self._inner.push(tag);
        proof {
            assert(final(self)@ =~= old(self)@.push(tag@));
        }
    }

    /// The first tag, in insertion order, that the predicate accepts, if
    /// any: every tag before it was refused.
    pub fn get<P: Fn(&Tag) -> bool>(&self, predicate: P) -> (r: Option<Tag>)
        requires
            forall|i: int|
                0 <= i < self@.len() ==> call_requires(predicate, (&self.inner_seq()[i],)),
        ensures
            match r {
                Some(t) => exists|i: int|
                    0 <= i < self@.len() && t@ == self@[i] && call_ensures(
                        predicate,
                        (&self.inner_seq()[i],),
                        true,
                    ) && forall|j: int|
                        0 <= j < i ==> call_ensures(predicate, (&self.inner_seq()[j],), false),
                None => forall|i: int|
                    0 <= i < self@.len() ==> call_ensures(predicate, (&self.inner_seq()[i],), false),
            },
    {
        let mut i: usize = 0;
        while i < self._inner.len()
            invariant
                i <= self._inner.len(),
                forall|j: int|
                    0 <= j < self@.len() ==> call_requires(predicate, (&self.inner_seq()[j],)),
                forall|j: int|
                    0 <= j < i ==> call_ensures(predicate, (&self.inner_seq()[j],), false),
            decreases self._inner.len() - i,
        {
            let tag = &self._inner[i];
            proof {
                assert(*tag == self.inner_seq()[i as int]);
                assert(call_requires(predicate, (&self.inner_seq()[i as int],)));
            }
            if predicate(tag) {
                let out = tag.clone();
                proof {
                    assert(out@ == self@[i as int]);
                    assert(call_ensures(predicate, (&self.inner_seq()[i as int],), true));
                    assert(forall|j: int|
                        0 <= j < i as int ==> call_ensures(
                            predicate,
                            (&self.inner_seq()[j],),
                            false,
                        ));
                }
                return Some(out);
            }
            i += 1;
        }
        None
    }

    /// The stored tags, before mapping to their mathematical values.
    pub closed spec fn inner_seq(&self) -> Seq<Tag> {
        self._inner@
    }

    /// The tags as an owned vector, in the order they were added.
    pub fn into_vec(self) -> (r: Vec<Tag>)
        ensures
            r@.map_values(|t: Tag| t@) == self@,
    {
        let Tags { _inner } = self;
        _inner
    }
}

impl Gallery {
    /// A gallery with no title, no images and no tags.
    pub fn new() -> (r: Self)
        ensures
            r@.title == Seq::<char>::empty(),
            r@.image_count == 0,
            r@.images == Seq::<ImageV>::empty(),
            r@.tags == Seq::<TagV>::empty(),
    {
        proof {
            assert(Seq::<Image>::empty().map_values(|i: Image| i@) =~= Seq::<ImageV>::empty());
        }
        Gallery { title: String::new(), image_count: 0, images: Vec::new(), tags: Tags::new() }
    }

    pub fn set_title(&mut self, title: String)
        ensures
            final(self)@ == (GalleryV { title: title@, ..old(self)@ }),
    {
        self.title = title;
    }

    /// Appends one image descriptor; the stored count grows with the list.
    pub fn add_image(&mut self, image: Image)
        requires
            old(self)@.image_count < u8::MAX,
        ensures
            final(self)@.images == old(self)@.images.push(image@),
            final(self)@.image_count == old(self)@.image_count + 1,
            final(self)@.title == old(self)@.title,
            final(self)@.tags == old(self)@.tags,
    {
        self.image_count += 1;
        self.images.push(image);
        proof {
            assert(final(self)@.images =~= old(self)@.images.push(image@));
        }
    }

    /// Adds one tag, mapping the raw tag name to its kind.
    pub fn add_tag(&mut self, name: String, value: String)
        ensures
            final(self)@.tags == old(self)@.tags.push(
                TagV { t_type: tag_type_of(name@), t_val: value@ },
            ),
            final(self)@.title == old(self)@.title,
            final(self)@.images == old(self)@.images,
            final(self)@.image_count == old(self)@.image_count,
    {
        let t_type = TagType::of_name(name.as_str());
        let tag = Tag { t_type, t_val: value };
        self.tags.push(tag);
    }

    pub fn title(&self) -> (r: &String)
        ensures
            r@ == self@.title,
    {
        &self.title
    }

    pub fn len(&self) -> (r: u8)
        ensures
            r == self@.image_count,
    {
        self.image_count
    }

    /// The image descriptors, in discovery order.
    pub fn images(&self) -> (r: &Vec<Image>)
        ensures
            r@.map_values(|i: Image| i@) == self@.images,
    {
        &self.images
    }

    /// A copy of the gallery's tags.
    pub fn tags(&self) -> (r: Tags)
        ensures
            r@ == self@.tags,
    {
        self.tags.clone()
    }

    /// The stored count always matches the number of images when the gallery
    /// was built through `new` and `add_image`.
    pub open spec fn counted(&self) -> bool {
        self@.image_count == self@.images.len()
    }
}

} // verus!
