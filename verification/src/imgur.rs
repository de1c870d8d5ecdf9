//! Summaries of images and albums of the image host, from what its API
//! answers.

use vstd::prelude::*;
use crate::json::Json;
use crate::numbers::{decimal_text, push_decimal};
use crate::units::{show_size, size_text};

verus! {

/// Why an answer of the image host could not be summarised.
#[derive(Clone, Copy, Debug, PartialEq, Eq, Structural)]
pub enum ImgurError {
    /// The answer has no member `data`.
    MissingData,
    /// The image has no width.
    MissingWidth,
    /// The image has no height.
    MissingHeight,
    /// The album has no title, or one that is no string.
    MissingTitle,
    /// The album does not say how many images it holds.
    NoImageCount,
    /// The album has no list of images.
    NoImages,
    /// The only image of an album has no address.
    NoLink,
    /// An image of an album has no size.
    MissingSize,
    /// The sizes of the images of an album add up to more than 64 bits hold.
    SizeOverflow,
}

/// The sign that separates the parts of a summary, with a space on either
/// side.
pub open spec fn separator() -> Seq<char> {
    " \u{1364} "@
}

/// The number that the member `key` holds, if it holds a whole number
/// that is not negative.
pub open spec fn number_field(data: Json, key: Seq<char>) -> Option<u64> {
    match data.field(key) {
        Some(v) => v.unsigned(),
        None => None,
    }
}

/// The size to show for an image: that of its MP4 form, else that of its
/// WebM form, else its own.
pub open spec fn preferred_size_of(data: Json) -> Option<u64> {
    if number_field(data, "mp4_size"@) is Some {
        number_field(data, "mp4_size"@)
    } else if number_field(data, "webm_size"@) is Some {
        number_field(data, "webm_size"@)
    } else {
        number_field(data, "size"@)
    }
}

/// The tag that says whether an image is safe for work: `NSFW` or `sfw`
/// where the host says so, `?fw` where what it says cannot be read, and
/// `¿fw` where it says nothing.
pub open spec fn sfw_tag(data: Json) -> Seq<char> {
    match data.field("nsfw"@) {
        Some(v) => match v.truth() {
            Some(true) => "NSFW"@,
            Some(false) => "sfw"@,
            None => "?fw"@,
        },
        None => "\u{bf}fw"@,
    }
}

/// The caption of an image: its title, else the hint, else its description.
pub open spec fn caption_of(data: Json, hint: Option<Seq<char>>) -> Option<Seq<char>> {
    if data.text_field("title"@) is Some {
        data.text_field("title"@)
    } else if hint is Some {
        hint
    } else {
        data.text_field("description"@)
    }
}

/// The size of an image as a part of its summary.
pub open spec fn size_part(data: Json) -> Seq<char> {
    match preferred_size_of(data) {
        Some(n) => " "@ + size_text(n as nat),
        None => Seq::empty(),
    }
}

/// The section of an image as a part of its summary.
pub open spec fn section_part(data: Json) -> Seq<char> {
    match data.text_field("section"@) {
        Some(s) => " /r/"@ + s,
        None => Seq::empty(),
    }
}

/// The caption of an image as a part of its summary.
pub open spec fn caption_part(data: Json, hint: Option<Seq<char>>) -> Seq<char> {
    match caption_of(data, hint) {
        Some(c) => separator() + c,
        None => Seq::empty(),
    }
}

/// The summary of an image: width and height as the answer writes them,
/// then the size, the section and the caption as far as there are any, with
/// the tag between them.
pub open spec fn image_text(data: Json, hint: Option<Seq<char>>) -> Result<
    Seq<char>,
    ImgurError,
> {
    match data.written_field("width"@) {
        None => Err(ImgurError::MissingWidth),
        Some(width) => match data.written_field("height"@) {
            None => Err(ImgurError::MissingHeight),
            Some(height) => Ok(
                width + "\u{d7}"@ + height + size_part(data) + section_part(data) + " "@ + sfw_tag(
                    data,
                ) + caption_part(data, hint),
            ),
        },
    }
}

/// The summary of the answer to a request for one image.
pub open spec fn image_summary(resp: Json) -> Result<Seq<char>, ImgurError> {
    match resp.field("data"@) {
        Some(data) => image_text(data, None),
        None => Err(ImgurError::MissingData),
    }
}

/// The address to show for an image: that of its MP4 form where it names
/// one, else its own.
pub open spec fn link_of(image: Json) -> Option<Seq<char>> {
    match image.field("mp4"@) {
        Some(v) => v.text(),
        None => image.text_field("link"@),
    }
}

/// The sizes of `images` added up, or `None` where one of them has none.
pub open spec fn total_size(images: Seq<Json>) -> Option<nat>
    decreases images.len(),
{
    if images.len() == 0 {
        Some(0)
    } else {
        match (total_size(images.drop_last()), preferred_size_of(images.last())) {
            (Some(t), Some(n)) => Some((t + n) as nat),
            _ => None,
        }
    }
}

/// Whether the host says that `image` is animated.
pub open spec fn is_animated(image: Json) -> bool {
    match image.field("animated"@) {
        Some(v) => v.truth() == Some(true),
        None => false,
    }
}

/// How many of `images` are animated.
pub open spec fn animated_count(images: Seq<Json>) -> nat
    decreases images.len(),
{
    if images.len() == 0 {
        0
    } else {
        animated_count(images.drop_last()) + if is_animated(images.last()) {
            1nat
        } else {
            0nat
        }
    }
}

/// The summary of an album of several images.
pub open spec fn album_text(data: Json, title: Seq<char>, images: Seq<Json>) -> Result<
    Seq<char>,
    ImgurError,
> {
    match total_size(images) {
        None => Err(ImgurError::MissingSize),
        Some(total) => if total > u64::MAX {
            Err(ImgurError::SizeOverflow)
        } else {
            Ok(
                decimal_text(animated_count(images)) + "/"@ + decimal_text(images.len())
                    + " animated"@ + separator() + size_text(total) + " "@ + sfw_tag(data)
                    + separator() + title,
            )
        },
    }
}

/// The summary of an album whose only image is `image`.
pub open spec fn single_text(image: Json, title: Seq<char>) -> Result<Seq<char>, ImgurError> {
    match link_of(image) {
        None => Err(ImgurError::NoLink),
        Some(link) => match image_text(image, Some(title)) {
            Ok(body) => Ok(link + separator() + body),
            Err(e) => Err(e),
        },
    }
}

/// The summary of the answer to a request for one album.
pub open spec fn gallery_summary(resp: Json) -> Result<Seq<char>, ImgurError> {
    match resp.field("data"@) {
        None => Err(ImgurError::MissingData),
        Some(data) => match data.text_field("title"@) {
            None => Err(ImgurError::MissingTitle),
            Some(title) => match data.field("images_count"@) {
                None => Err(ImgurError::NoImageCount),
                Some(count) => if count.signed() is None {
                    Err(ImgurError::NoImageCount)
                } else {
                    match data.field("images"@) {
                        None => Err(ImgurError::NoImages),
                        Some(list) => match list.items() {
                            None => Err(ImgurError::NoImages),
                            Some(images) => if count.signed() == Some(1i64) && images.len()
                                == 1 {
                                single_text(images[0], title)
                            } else {
                                album_text(data, title, images)
                            },
                        },
                    }
                },
            },
        },
    }
}

/// Whether `r` is the result that the model `m` asks for.
pub open spec fn matches_summary(r: Result<String, ImgurError>, m: Result<
    Seq<char>,
    ImgurError,
>) -> bool {
    match r {
        Ok(s) => m == Ok::<Seq<char>, ImgurError>(s@),
        Err(e) => m == Err::<Seq<char>, ImgurError>(e),
    }
}

fn try_u64(data: &Json, key: &str) -> (r: Option<u64>)
    ensures
        r == number_field(*data, key@),
{
    match data.get(key) {
        Some(v) => v.as_u64(),
        None => None,
    }
}

/// The size to show for an image.
pub fn preferred_size(data: &Json) -> (r: Option<u64>)
    ensures
        r == preferred_size_of(*data),
{
    match try_u64(data, "mp4_size") {
        Some(n) => Some(n),
        None => match try_u64(data, "webm_size") {
            Some(n) => Some(n),
            None => try_u64(data, "size"),
        },
    }
}

/// The address to show for an image.
pub fn preferred_link(image: &Json) -> (r: Result<&str, ImgurError>)
    ensures
        match r {
            Ok(link) => link_of(*image) == Some(link@),
            Err(e) => link_of(*image) is None && e == ImgurError::NoLink,
        },
{
    let found = match image.get("mp4") {
        Some(v) => v.as_str(),
        None => image.get_str("link"),
    };
    match found {
        Some(link) => Ok(link),
        None => Err(ImgurError::NoLink),
    }
}

/// Appends the tag that says whether an image is safe for work, after a
/// space.
pub fn push_sfw(title: &mut String, data: &Json)
    ensures
        final(title)@ == old(title)@ + " "@ + sfw_tag(*data),
{
    title.append(" ");
    let tag = match data.get("nsfw") {
        Some(v) => match v.as_bool() {
            Some(true) => "NSFW",
            Some(false) => "sfw",
            None => "?fw",
        },
        None => "\u{bf}fw",
    };
    title.append(tag);
}

/// Summarises one image. `title_hint` is the caption to use where the image
/// has no title of its own.
pub fn image_body(data: &Json, title_hint: Option<&str>) -> (r: Result<String, ImgurError>)
    ensures
        matches_summary(
            r,
            image_text(
                *data,
                match title_hint {
                    Some(h) => Some(h@),
                    None => None,
                },
            ),
        ),
{
    let ghost hint = match title_hint {
        Some(h) => Some(h@),
        None => None,
    };
    let width = match data.get_written("width") {
        Some(w) => w,
        None => {
            return Err(ImgurError::MissingWidth);
        },
    };
    let height = match data.get_written("height") {
        Some(h) => h,
        None => {
            return Err(ImgurError::MissingHeight);
        },
    };
    let mut title = String::from_str(width);
    title.append("\u{d7}");
    title.append(height);
    let ghost head = title@;
    match preferred_size(data) {
        Some(size) => {
            title.append(" ");
            let shown = show_size(size);
            title.append(shown.as_str());
            assert(title@ =~= head + size_part(*data));
        },
        None => {
            assert(title@ =~= head + size_part(*data));
        },
    }
    let ghost sized = title@;
    match data.get_str("section") {
        Some(section) => {
            title.append(" /r/");
            title.append(section);
            assert(title@ =~= sized + section_part(*data));
        },
        None => {
            assert(title@ =~= sized + section_part(*data));
        },
    }
    push_sfw(&mut title, data);
    let ghost tagged = title@;
    let caption = match data.get_str("title") {
        Some(t) => Some(t),
        None => match title_hint {
            Some(h) => Some(h),
            None => data.get_str("description"),
        },
    };
    match caption {
        Some(c) => {
            title.append(" \u{1364} ");
            title.append(c);
            assert(title@ =~= tagged + caption_part(*data, hint));
        },
        None => {
            assert(title@ =~= tagged + caption_part(*data, hint));
        },
    }
    Ok(title)
}

/// Summarises the answer to a request for one image.
pub fn render_image(resp: &Json) -> (r: Result<String, ImgurError>)
    ensures
        matches_summary(r, image_summary(*resp)),
{
    match resp.get("data") {
        Some(data) => image_body(data, None),
        None => Err(ImgurError::MissingData),
    }
}

/// The sizes of the images added up, and how many of them are animated.
fn measure(images: &Vec<Json>) -> (r: Option<(u128, usize)>)
    ensures
        match r {
            Some((total, animated)) => total_size(images@) == Some(total as nat) && animated
                == animated_count(images@),
            None => total_size(images@) is None,
        },
{
    let mut total: u128 = 0;
    let mut animated: usize = 0;
    let mut missing = false;
    let mut i: usize = 0;
    assert(images@.take(0) =~= Seq::<Json>::empty());
    while i < images.len()
        invariant
            i <= images.len(),
            animated <= i,
            animated == animated_count(images@.take(i as int)),
            missing <==> total_size(images@.take(i as int)) is None,
            !missing ==> total_size(images@.take(i as int)) == Some(total as nat),
            total <= i * 0xffff_ffff_ffff_ffff,
        decreases images.len() - i,
    {
        let image = &images[i];
        proof {
            assert(images@.take(i + 1).drop_last() =~= images@.take(i as int));
            assert(images@.take(i + 1).last() == images@[i as int]);
            assert(i * 0xffff_ffff_ffff_ffff + 0xffff_ffff_ffff_ffff
                <= 0xffff_ffff_ffff_ffff_ffff_ffff_ffff_ffff) by (nonlinear_arith)
                requires
                    i <= 0xffff_ffff_ffff_ffff,
            ;
            assert((i + 1) * 0xffff_ffff_ffff_ffff == i * 0xffff_ffff_ffff_ffff
                + 0xffff_ffff_ffff_ffff) by (nonlinear_arith);
        }
        match preferred_size(image) {
            Some(n) => {
                total = total + n as u128;
            },
            None => {
                missing = true;
            },
        }
        let moving = match image.get("animated") {
            Some(v) => match v.as_bool() {
                Some(b) => b,
                None => false,
            },
            None => false,
        };
        if moving {
            animated += 1;
        }
        i += 1;
    }
    assert(images@.take(images@.len() as int) =~= images@);
    if missing {
        None
    } else {
        Some((total, animated))
    }
}

/// Summarises the answer to a request for one album: the one image of an
/// album that holds one, with the title of the album as its caption; else
/// how many images there are, how many of them are animated, and the size
/// of them all.
pub fn render_gallery(resp: &Json) -> (r: Result<String, ImgurError>)
    ensures
        matches_summary(r, gallery_summary(*resp)),
{
    let data = match resp.get("data") {
        Some(data) => data,
        None => {
            return Err(ImgurError::MissingData);
        },
    };
    let gallery_title = match data.get_str("title") {
        Some(t) => t,
        None => {
            return Err(ImgurError::MissingTitle);
        },
    };
    let count = match data.get("images_count") {
        Some(c) => match c.as_i64() {
            Some(n) => n,
            None => {
                return Err(ImgurError::NoImageCount);
            },
        },
        None => {
            return Err(ImgurError::NoImageCount);
        },
    };
    let images = match data.get("images") {
        Some(list) => match list.as_array() {
            Some(images) => images,
            None => {
                return Err(ImgurError::NoImages);
            },
        },
        None => {
            return Err(ImgurError::NoImages);
        },
    };
    if count == 1 && images.len() == 1 {
        let image = &images[0];
        let link = match preferred_link(image) {
            Ok(link) => link,
            Err(e) => {
                return Err(e);
            },
        };
        let body = match image_body(image, Some(gallery_title)) {
            Ok(body) => body,
            Err(e) => {
                return Err(e);
            },
        };
        let mut out = String::from_str(link);
        out.append(" \u{1364} ");
        out.append(body.as_str());
        return Ok(out);
    }
    let (total, animated) = match measure(images) {
        Some(m) => m,
        None => {
            return Err(ImgurError::MissingSize);
        },
    };
    if total > 0xffff_ffff_ffff_ffff {
        return Err(ImgurError::SizeOverflow);
    }
    let mut title = String::new();
    push_decimal(&mut title, animated as u64);
    title.append("/");
    push_decimal(&mut title, images.len() as u64);
    title.append(" animated");
    title.append(" \u{1364} ");
    let shown = show_size(total as u64);
    title.append(shown.as_str());
    push_sfw(&mut title, data);
    title.append(" \u{1364} ");
    title.append(gallery_title);
    assert(title@ =~= album_text(*data, gallery_title@, images@)->Ok_0);
    Ok(title)
}

} // verus!
