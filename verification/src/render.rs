//! Card texts as Anki shows them: images, Markdown and math.

use base64::Engine;
use vstd::prelude::*;

use crate::chars;
use crate::digest;
use crate::text;
use crate::text_map;
use crate::text_map::TextMap;

verus! {

// ── Images ───────────────────────────────────────────────────────────────────

/// An image attached to a note.
#[derive(Debug, PartialEq, Eq)]
pub struct NoteImage {
    pub filename: String,
    /// What identifies the attachment.
    pub upload_key: String,
    pub content_hash: String,
    pub data: Vec<u8>,
}

/// What a `NoteImage` says.
pub struct ImageModel {
    pub filename: Seq<char>,
    pub upload_key: Seq<char>,
    pub content_hash: Seq<char>,
    pub data: Seq<u8>,
}

impl View for NoteImage {
    type V = ImageModel;

    open spec fn view(&self) -> ImageModel {
        ImageModel {
            filename: self.filename@,
            upload_key: self.upload_key@,
            content_hash: self.content_hash@,
            data: self.data@,
        }
    }
}

/// What a list of images says.
pub open spec fn image_models(images: Seq<NoteImage>) -> Seq<ImageModel> {
    Seq::new(images.len(), |i: int| images[i]@)
}

impl Clone for NoteImage {
    fn clone(&self) -> (copy: Self)
        ensures
            copy@ == self@,
    {
        let copy = NoteImage {
            filename: self.filename.clone(),
            upload_key: self.upload_key.clone(),
            content_hash: self.content_hash.clone(),
            data: self.data.clone(),
        };
        assert(copy.data@ =~= self.data@);
        copy
    }
}

/// The name under which an image is stored in Anki: its file name, behind a digest of what
/// identifies the attachment.
pub open spec fn anki_name(image: ImageModel) -> Seq<char> {
    "bear_"@ + digest::short_hash_of(vstd::utf8::encode_utf8(image.upload_key)) + "_"@
        + image.filename
}

impl NoteImage {
    /// An image with the digest of its content.
    pub fn new(filename: String, upload_key: String, data: Vec<u8>) -> (image: Self)
        ensures
            image@ == (ImageModel {
                filename: filename@,
                upload_key: upload_key@,
                content_hash: digest::short_hash_of(data@),
                data: data@,
            }),
            digest::is_short_hash(image@.content_hash),
    {
        let content_hash = digest::short_hash(data.as_slice());
        NoteImage { filename, upload_key, content_hash, data }
    }

    /// The name under which the image is stored in Anki.
    pub fn anki_filename(&self) -> (name: String)
        ensures
            name@ == anki_name(self@),
            name@.len() == self@.filename.len() + 22,
    {
        proof {
            reveal_strlit("bear_");
            reveal_strlit("_");
        }
        let suffix = digest::short_hash(self.upload_key.as_str().as_bytes());
        let mut name = String::new();
        name.append("bear_");
        name.append(suffix.as_str());
        name.append("_");
        name.append(self.filename.as_str());
        assert(name@ == anki_name(self@));
        name
    }
}

/// What follows the last dot of a file name, or the whole name where it has none.
pub open spec fn extension_of(filename: Seq<char>) -> Seq<char> {
    match text::rfind(filename, "."@) {
        Some(dot) => filename.skip(dot + 1),
        None => filename,
    }
}

/// The file name is that of an image, by its extension in letters of either case.
pub open spec fn names_image(filename: Seq<char>) -> bool {
    let extension = text::ascii_lowercase(extension_of(filename));
    ||| extension == "png"@
    ||| extension == "jpg"@
    ||| extension == "jpeg"@
    ||| extension == "gif"@
    ||| extension == "webp"@
    ||| extension == "svg"@
    ||| extension == "bmp"@
    ||| extension == "tif"@
    ||| extension == "tiff"@
}

/// Tells whether a file name is that of an image.
pub fn is_image(filename: &str) -> (image: bool)
    ensures
        image == names_image(filename@),
{
    let name_chars = chars::to_chars(filename);
    let dot = chars::to_chars(".");
    proof {
        reveal_strlit(".");
    }
    let extension = match chars::rfind(name_chars.as_slice(), dot.as_slice()) {
        Some(at) => chars::from_chars(chars::rest(name_chars.as_slice(), at + 1)),
        None => filename.to_owned(),
    };
    let lower = chars::to_ascii_lowercase(extension.as_str());
    let name = lower.as_str();
    chars::same_text(name, "png") || chars::same_text(name, "jpg") || chars::same_text(name, "jpeg")
        || chars::same_text(name, "gif") || chars::same_text(name, "webp") || chars::same_text(
        name,
        "svg",
    ) || chars::same_text(name, "bmp") || chars::same_text(name, "tif") || chars::same_text(
        name,
        "tiff",
    )
}

/// The image that an attachment of a note is. The note and the attachment identify it.
pub fn attached_image(note_id: &str, uuid: &str, filename: String, data: Vec<u8>) -> (image:
    NoteImage)
    ensures
        image@ == (ImageModel {
            filename: filename@,
            upload_key: note_id@ + ":"@ + uuid@,
            content_hash: digest::short_hash_of(data@),
            data: data@,
        }),
        digest::is_short_hash(image@.content_hash),
{
    let mut upload_key = note_id.to_owned();
    upload_key.append(":");
    upload_key.append(uuid);
    NoteImage::new(filename, upload_key, data)
}

/// What stands for a character inside an HTML attribute.
pub open spec fn attr_image() -> spec_fn(char) -> Seq<char> {
    |c: char|
        if c == '"' {
            "&quot;"@
        } else if c == '&' {
            "&amp;"@
        } else if c == '<' {
            "&lt;"@
        } else if c == '>' {
            "&gt;"@
        } else {
            seq![c]
        }
}

/// Escapes the characters that are unsafe inside an HTML attribute.
pub fn escape_html_attr(s: &str) -> (escaped: String)
    ensures
        escaped@ == text::expand(s@, attr_image()),
{
    let mut escaped = String::new();
    for c in it: s.chars()
        invariant
            it.seq() == s@,
            escaped@ == text::expand(s@.take(it.index()), attr_image()),
    {
        assert(s@.take(it.index() + 1).drop_last() == s@.take(it.index()));
        match c {
            '"' => escaped.append("&quot;"),
            '&' => escaped.append("&amp;"),
            '<' => escaped.append("&lt;"),
            '>' => escaped.append("&gt;"),
            _ => escaped.push(c),
        }
    }
    assert(s@.take(s@.len() as int) == s@);
    escaped
}

/// What stands for a character of a file name inside a Markdown link.
pub open spec fn link_image() -> spec_fn(char) -> Seq<char> {
    |c: char|
        if c == ' ' {
            "%20"@
        } else if c == '%' {
            "%25"@
        } else if c == '#' {
            "%23"@
        } else if c == '?' {
            "%3F"@
        } else {
            seq![c]
        }
}

/// Encodes a file name as Bear writes it in Markdown links.
pub fn percent_encode_filename(name: &str) -> (encoded: String)
    ensures
        encoded@ == text::expand(name@, link_image()),
{
    let mut encoded = String::new();
    for c in it: name.chars()
        invariant
            it.seq() == name@,
            encoded@ == text::expand(name@.take(it.index()), link_image()),
    {
        assert(name@.take(it.index() + 1).drop_last() == name@.take(it.index()));
        match c {
            ' ' => encoded.append("%20"),
            '%' => encoded.append("%25"),
            '#' => encoded.append("%23"),
            '?' => encoded.append("%3F"),
            _ => encoded.push(c),
        }
    }
    assert(name@.take(name@.len() as int) == name@);
    encoded
}

/// How a text refers to a file: by its encoded name, else by its name as it is, else not.
pub open spec fn reference_to(text: Seq<char>, filename: Seq<char>) -> Option<Seq<char>> {
    let encoded = "]("@ + text::expand(filename, link_image()) + ")"@;
    let raw = "]("@ + filename + ")"@;
    if text::contains(text, encoded) {
        Some(encoded)
    } else if text::contains(text, raw) {
        Some(raw)
    } else {
        None
    }
}

/// The end of the Markdown link by which a text refers to a file.
pub fn markdown_image_pattern(text: &str, filename: &str) -> (pattern: Option<String>)
    ensures
        text::opt_text(pattern) == reference_to(text@, filename@),
{
    let mut encoded = String::new();
    encoded.append("](");
    encoded.append(percent_encode_filename(filename).as_str());
    encoded.append(")");
    assert(encoded@ == "]("@ + text::expand(filename@, link_image()) + ")"@);
    if chars::contains(text, encoded.as_str()) {
        return Some(encoded);
    }
    let mut raw = String::new();
    raw.append("](");
    raw.append(filename);
    raw.append(")");
    assert(raw@ == "]("@ + filename@ + ")"@);
    if chars::contains(text, raw.as_str()) {
        Some(raw)
    } else {
        None
    }
}

/// The text refers to the image.
pub open spec fn refers_to(text: Seq<char>) -> spec_fn(ImageModel) -> bool {
    |image: ImageModel| reference_to(text, image.filename) is Some
}

/// The images that a text refers to, in their order.
pub fn referenced_images<'a>(text: &str, image_files: &'a [NoteImage]) -> (images: Vec<
    &'a NoteImage,
>)
    ensures
        image_models(images@.unref()) == image_models(image_files@).filter(refers_to(text@)),
{
    let mut images: Vec<&'a NoteImage> = Vec::new();
    let ghost models = image_models(image_files@);
    assert(models.take(0).filter(refers_to(text@)) == Seq::<ImageModel>::empty()) by {
        reveal(Seq::filter);
    }
    assert(image_models(images@.unref()) == Seq::<ImageModel>::empty());
    for i in 0..image_files.len()
        invariant
            models == image_models(image_files@),
            image_models(images@.unref()) == models.take(i as int).filter(refers_to(text@)),
    {
        let image = &image_files[i];
        let ghost before = images@;
        proof {
            reveal(Seq::filter);
            assert(models.take(i + 1).drop_last() == models.take(i as int));
            assert(models[i as int] == image@);
        }
        if markdown_image_pattern(text, image.filename.as_str()).is_some() {
            images.push(image);
            assert(image_models(images@.unref()) == image_models(before.unref()).push(image@));
        }
    }
    assert(models.take(models.len() as int) == models);
    images
}

/// The `<img>` tag of an image.
pub open spec fn img_tag(source: Seq<char>, alt: Seq<char>) -> Seq<char> {
    if alt.len() == 0 {
        "<img src=\""@ + source + "\">"@
    } else {
        "<img src=\""@ + source + "\" alt=\""@ + text::expand(alt, attr_image()) + "\">"@
    }
}

/// `text` with each `![alt]` that ends in `close` replaced by an `<img>` tag. The tag takes the
/// place from the last `![` before the end of the link; where there is none, the text stays.
pub open spec fn with_img_tags(text: Seq<char>, close: Seq<char>, source: Seq<char>) -> Seq<char>
    recommends
        close.len() > 0,
    decreases text.len(),
{
    proof {
        text::lemma_find(text, close);
    }
    match text::find(text, close) {
        None => text,
        Some(end) => if close.len() == 0 {
            text
        } else {
            (match text::rfind(text.take(end), "!["@) {
                Some(open) => text.take(open) + img_tag(source, text.subrange(open + 2, end)),
                None => text.take(end + close.len()),
            }) + with_img_tags(text.skip(end + close.len()), close, source)
        },
    }
}

/// Replaces every `![alt](…)` that ends in `close` by an `<img>` tag with the given source. The
/// alternative text is kept.
pub fn replace_md_image_with_pattern(text: &str, close: &str, anki_src: &str) -> (result: String)
    requires
        close@.len() > 0,
    ensures
        result@ == with_img_tags(text@, close@, anki_src@),
{
    let text_chars = chars::to_chars(text);
    let close_chars = chars::to_chars(close);
    let open_chars = chars::to_chars("![");
    proof {
        reveal_strlit("![");
    }
    let mut result = String::new();
    let mut tail: &[char] = text_chars.as_slice();
    loop
        invariant
            close_chars@ == close@,
            close@.len() > 0,
            open_chars@ == "!["@,
            open_chars@.len() == 2,
            result@ + with_img_tags(tail@, close@, anki_src@) == with_img_tags(
                text@,
                close@,
                anki_src@,
            ),
        decreases tail@.len(),
    {
        match chars::find(tail, close_chars.as_slice()) {
            None => {
                chars::push_chars(&mut result, tail);
                return result;
            },
            Some(end) => {
                let before = chars::head(tail, end);
                match chars::rfind(before, open_chars.as_slice()) {
                    Some(open) => {
                        let alt = chars::from_chars(chars::rest(before, open + 2));
                        assert(alt@ == tail@.subrange(open + 2, end as int));
                        chars::push_chars(&mut result, chars::head(tail, open));
                        result.append("<img src=\"");
                        result.append(anki_src);
                        if !alt.as_str().is_empty() {
                            result.append("\" alt=\"");
                            result.append(escape_html_attr(alt.as_str()).as_str());
                        }
                        result.append("\">");
                    },
                    None => {
                        chars::push_chars(&mut result, chars::head(tail, end + close_chars.len()));
                    },
                }
                tail = chars::rest(tail, end + close_chars.len());
            },
        }
    }
}

// ── Uploads ──────────────────────────────────────────────────────────────────

/// The character of a six-bit value in the standard base64 alphabet.
pub open spec fn base64_digit(value: int) -> char {
    if value < 26 {
        (65 + value) as char
    } else if value < 52 {
        (71 + value) as char
    } else if value < 62 {
        (value - 4) as char
    } else if value == 62 {
        '+'
    } else {
        '/'
    }
}

/// A byte, or zero behind the last one.
pub open spec fn byte_or_zero(data: Seq<u8>, i: int) -> int {
    if i < data.len() {
        data[i] as int
    } else {
        0
    }
}

/// The standard base64 text of some bytes, with padding: four characters for each three bytes
/// or what is left of them, six bits to a character, the high bits first.
pub open spec fn base64_text(data: Seq<u8>) -> Seq<char> {
    Seq::new(
        (4 * ((data.len() + 2) / 3)) as nat,
        |i: int|
            {
                let first = i / 4 * 3;
                let bits = byte_or_zero(data, first) * 65536 + byte_or_zero(data, first + 1) * 256
                    + byte_or_zero(data, first + 2);
                if first + i % 4 > data.len() {
                    '='
                } else if i % 4 == 0 {
                    base64_digit(bits / 262144)
                } else if i % 4 == 1 {
                    base64_digit(bits / 4096 % 64)
                } else if i % 4 == 2 {
                    base64_digit(bits / 64 % 64)
                } else {
                    base64_digit(bits % 64)
                }
            },
    )
}

/// `base64::Engine::encode` of `base64::engine::general_purpose::STANDARD` gives the base64 text
/// of the bytes in the standard alphabet, with padding. The text must fit in memory.
#[verifier::external_body]
fn base64_encode(data: &[u8]) -> (encoded: String)
    requires
        4 * ((data@.len() + 2) / 3) <= isize::MAX,
    ensures
        encoded@ == base64_text(data@),
{
    base64::engine::general_purpose::STANDARD.encode(data)
}

/// The base64 text of the image fits in memory.
pub open spec fn can_be_encoded(image: ImageModel) -> bool {
    4 * ((image.data.len() + 2) / 3) <= isize::MAX
}

/// What is stored in Anki for an image: the name, and the data in base64.
pub fn upload_image(image: &NoteImage) -> (upload: (String, String))
    requires
        can_be_encoded(image@),
    ensures
        upload.0@ == anki_name(image@),
        upload.1@ == base64_text(image@.data),
{
    let base64_data = base64_encode(image.data.as_slice());
    (image.anki_filename(), base64_data)
}

/// A card text whose images are being put in place.
#[derive(Debug)]
pub struct ImagePass {
    text: String,
    next: usize,
}

/// The text so far, and the next image to look at.
pub struct PassModel {
    pub text: Seq<char>,
    pub next: int,
}

impl View for ImagePass {
    type V = PassModel;

    closed spec fn view(&self) -> PassModel {
        PassModel { text: self.text@, next: self.next as int }
    }
}

/// A text before any of its images is in place.
pub open spec fn untouched(text: Seq<char>) -> PassModel {
    PassModel { text, next: 0 }
}

/// Puts the images in place that the text refers to and that have been uploaded. Stops at the
/// first one that the text refers to and that has not been uploaded, or behind the last image.
pub open spec fn placed(
    pass: PassModel,
    images: Seq<ImageModel>,
    uploaded: Map<Seq<char>, Seq<char>>,
) -> PassModel
    decreases images.len() - pass.next,
{
    if pass.next >= images.len() {
        pass
    } else {
        let image = images[pass.next];
        match reference_to(pass.text, image.filename) {
            None => placed(PassModel { next: pass.next + 1, ..pass }, images, uploaded),
            Some(close) => if uploaded.contains_key(image.upload_key) {
                placed(
                    with_image(pass, close, uploaded[image.upload_key]),
                    images,
                    uploaded,
                )
            } else {
                pass
            },
        }
    }
}

/// The next image is put in place, in the stead of the links that end in `close`.
pub open spec fn with_image(pass: PassModel, close: Seq<char>, source: Seq<char>) -> PassModel {
    PassModel { text: with_img_tags(pass.text, close, source), next: pass.next + 1 }
}

/// The next image is one that the text refers to.
pub open spec fn awaits_upload(pass: PassModel, images: Seq<ImageModel>) -> bool {
    0 <= pass.next < images.len() && reference_to(pass.text, images[pass.next].filename) is Some
}

/// The text once the next image has been uploaded.
pub open spec fn after_upload(pass: PassModel, images: Seq<ImageModel>) -> PassModel {
    let image = images[pass.next];
    with_image(pass, reference_to(pass.text, image.filename)->0, anki_name(image))
}

impl ImagePass {
    /// A text before any of its images is in place.
    pub fn new(text: &str) -> (pass: Self)
        ensures
            pass@ == untouched(text@),
    {
        ImagePass { text: text.to_owned(), next: 0 }
    }

    /// The next image to look at.
    pub fn position(&self) -> (position: usize)
        ensures
            position == self@.next,
    {
        self.next
    }

    /// Puts the images in place that have been uploaded. Gives the position of the first image
    /// that must be uploaded before the others can follow.
    pub fn process_images(&mut self, images: &[NoteImage], uploaded: &TextMap<String>) -> (needed:
        Option<usize>)
        requires
            old(self)@.next <= images@.len(),
        ensures
            final(self)@ == placed(
                old(self)@,
                image_models(images@),
                text_map::text_values(uploaded@),
            ),
            final(self)@.next <= images@.len(),
            match needed {
                Some(i) => i == final(self)@.next && awaits_upload(
                    final(self)@,
                    image_models(images@),
                ) && !uploaded@.contains_key(images@[i as int].upload_key@),
                None => final(self)@.next == images@.len(),
            },
    {
        let ghost models = image_models(images@);
        let ghost names = text_map::text_values(uploaded@);
        while self.next < images.len()
            invariant
                self.next <= images@.len(),
                models == image_models(images@),
                names == text_map::text_values(uploaded@),
                placed(self@, models, names) == placed(old(self)@, models, names),
            decreases images@.len() - self.next,
        {
            let image = &images[self.next];
            assert(models[self.next as int] == image@);
            let pattern = markdown_image_pattern(self.text.as_str(), image.filename.as_str());
            if let Some(close) = pattern {
                match uploaded.get(image.upload_key.as_str()) {
                    None => {
                        return Some(self.next);
                    },
                    Some(name) => {
                        proof {
                            lemma_reference(self.text@, image.filename@);
                        }
                        self.text = replace_md_image_with_pattern(
                            self.text.as_str(),
                            close.as_str(),
                            name.as_str(),
                        );
                    },
                }
            }
            self.next = self.next + 1;
        }
        None
    }

    /// The next image has been uploaded: records it, and puts it in place.
    pub fn image_uploaded(&mut self, images: &[NoteImage], uploaded: &mut TextMap<String>)
        requires
            awaits_upload(old(self)@, image_models(images@)),
        ensures
            final(self)@ == after_upload(old(self)@, image_models(images@)),
            text_map::text_values(final(uploaded)@) == text_map::text_values(
                old(uploaded)@,
            ).insert(
                images@[old(self)@.next].upload_key@,
                anki_name(images@[old(self)@.next]@),
            ),
    {
        let image = &images[self.next];
        assert(image_models(images@)[self.next as int] == image@);
        let name = image.anki_filename();
        let pattern = markdown_image_pattern(self.text.as_str(), image.filename.as_str());
        if let Some(close) = pattern {
            proof {
                lemma_reference(self.text@, image.filename@);
            }
            self.text = replace_md_image_with_pattern(
                self.text.as_str(),
                close.as_str(),
                name.as_str(),
            );
        }
        self.next = self.next + 1;
        let ghost text = name@;
        let key = image.upload_key.clone();
        uploaded.insert(key, name);
        assert(text_map::text_values(uploaded@) =~= text_map::text_values(old(uploaded)@).insert(
            key@,
            text,
        ));
    }

    /// The next image could not be uploaded: its links stay as they are.
    pub fn image_failed(&mut self)
        requires
            old(self)@.next < usize::MAX,
        ensures
            final(self)@ == (PassModel { next: old(self)@.next + 1, ..old(self)@ }),
    {
        self.next = self.next + 1;
    }
}

/// The end of a link is not empty.
proof fn lemma_reference(text: Seq<char>, filename: Seq<char>)
    ensures
        reference_to(text, filename) matches Some(close) ==> close.len() > 0,
{
    reveal_strlit("](");
}

/// What a card text needs next: the upload of an image, or nothing, for here is its HTML.
#[derive(Debug)]
pub enum Rendering {
    Upload(usize),
    Html(String),
}

/// Takes a card text towards its HTML. Puts the images in place that have been uploaded; where
/// none is left to be uploaded, renders the Markdown and then the math.
pub fn render_for_anki(
    pass: &mut ImagePass,
    image_files: &[NoteImage],
    upload_cache: &TextMap<String>,
) -> (rendering: Rendering)
    requires
        old(pass)@.next <= image_files@.len(),
    ensures
        final(pass)@ == placed(
            old(pass)@,
            image_models(image_files@),
            text_map::text_values(upload_cache@),
        ),
        final(pass)@.next <= image_files@.len(),
        match rendering {
            Rendering::Upload(i) => i == final(pass)@.next && awaits_upload(
                final(pass)@,
                image_models(image_files@),
            ) && !upload_cache@.contains_key(image_files@[i as int].upload_key@),
            Rendering::Html(html) => final(pass)@.next == image_files@.len() && html@ == rendered(
                final(pass)@.text,
            ),
        },
{
    match pass.process_images(image_files, upload_cache) {
        Some(i) => Rendering::Upload(i),
        None => Rendering::Html(render_text(pass.text.as_str())),
    }
}

// ── Markdown ─────────────────────────────────────────────────────────────────

/// The HTML of a Markdown text, with or without tables, strikethrough and task lists.
pub uninterp spec fn markdown_html(
    text: Seq<char>,
    tables: bool,
    strikethrough: bool,
    tasklists: bool,
) -> Seq<char>;

/// `pulldown_cmark::html::push_html` writes the HTML of what `pulldown_cmark::Parser::new_ext`
/// reads from the text with the chosen extensions and no others. The HTML depends on the text and
/// the extensions alone.
#[verifier::external_body]
fn push_markdown_html(text: &str, tables: bool, strikethrough: bool, tasklists: bool) -> (html:
    String)
    ensures
        html@ == markdown_html(text@, tables, strikethrough, tasklists),
{
    let mut options = pulldown_cmark::Options::empty();
    options.set(pulldown_cmark::Options::ENABLE_TABLES, tables);
    options.set(pulldown_cmark::Options::ENABLE_STRIKETHROUGH, strikethrough);
    options.set(pulldown_cmark::Options::ENABLE_TASKLISTS, tasklists);
    let mut html = String::new();
    pulldown_cmark::html::push_html(&mut html, pulldown_cmark::Parser::new_ext(text, options));
    html
}

/// Renders Markdown with tables, strikethrough and task lists.
pub fn markdown_to_html(text: &str) -> (html: String)
    ensures
        html@ == markdown_html(text@, true, true, true),
{
    push_markdown_html(text, true, true, true)
}

// ── Math ─────────────────────────────────────────────────────────────────────

/// Math in the delimiters of MathJax: inline, or as a block where `blocks` allows it and the math
/// takes more than one line.
pub open spec fn math_markup(content: Seq<char>, blocks: bool) -> Seq<char> {
    if blocks && content.contains('\n') {
        "\\["@ + content + "\\]"@
    } else {
        "\\("@ + content + "\\)"@
    }
}

/// `text` with what stands between `open` and the next `close` in the delimiters of MathJax. An
/// `open` without a `close` behind it stays.
pub open spec fn with_math(
    text: Seq<char>,
    open: Seq<char>,
    close: Seq<char>,
    blocks: bool,
) -> Seq<char>
    recommends
        open.len() > 0,
    decreases text.len(),
{
    proof {
        lemma_delimiters(text, open, close);
    }
    match text::find(text, open) {
        None => text,
        Some(start) => if open.len() == 0 {
            text
        } else {
            let inner = text.skip(start + open.len());
            text.take(start) + match text::find(inner, close) {
                Some(end) => math_markup(inner.take(end), blocks) + with_math(
                    inner.skip(end + close.len()),
                    open,
                    close,
                    blocks,
                ),
                None => open + with_math(inner, open, close, blocks),
            }
        },
    }
}

/// The delimiters stand inside the text.
pub proof fn lemma_delimiters(text: Seq<char>, open: Seq<char>, close: Seq<char>)
    ensures
        text::find(text, open) matches Some(start) ==> {
            &&& 0 <= start
            &&& start + open.len() <= text.len()
            &&& text::find(text.skip(start + open.len()), close) matches Some(end) ==> 0 <= end
                && end + close.len() <= text.len() - start - open.len()
        },
{
    text::lemma_find(text, open);
    if let Some(start) = text::find(text, open) {
        text::lemma_find(text.skip(start + open.len()), close);
    }
}

/// Puts what stands between `open` and the next `close` in the delimiters of MathJax. An `open`
/// without a `close` behind it is passed through.
pub fn replace_math_delimiters(text: &str, open: &str, close: &str, blocks: bool) -> (result:
    String)
    requires
        open@.len() > 0,
    ensures
        result@ == with_math(text@, open@, close@, blocks),
{
    let text_chars = chars::to_chars(text);
    let open_chars = chars::to_chars(open);
    let close_chars = chars::to_chars(close);
    let newline: [char; 1] = ['\n'];
    let mut result = String::new();
    let mut tail: &[char] = text_chars.as_slice();
    loop
        invariant
            open_chars@ == open@,
            close_chars@ == close@,
            newline@ == seq!['\n'],
            open@.len() > 0,
            result@ + with_math(tail@, open@, close@, blocks) == with_math(
                text@,
                open@,
                close@,
                blocks,
            ),
        decreases tail@.len(),
    {
        match chars::find(tail, open_chars.as_slice()) {
            None => {
                chars::push_chars(&mut result, tail);
                return result;
            },
            Some(start) => {
                chars::push_chars(&mut result, chars::head(tail, start));
                tail = chars::rest(tail, start + open_chars.len());
                match chars::find(tail, close_chars.as_slice()) {
                    Some(end) => {
                        let content = chars::head(tail, end);
                        let breaks = chars::find(content, &newline).is_some();
                        proof {
                            lemma_contains_char(content@, '\n');
                        }
                        if blocks && breaks {
                            result.append("\\[");
                            chars::push_chars(&mut result, content);
                            result.append("\\]");
                        } else {
                            result.append("\\(");
                            chars::push_chars(&mut result, content);
                            result.append("\\)");
                        }
                        tail = chars::rest(tail, end + close_chars.len());
                    },
                    None => {
                        result.append(open);
                    },
                }
            },
        }
    }
}

/// A text contains a character where it contains the text of that one character.
proof fn lemma_contains_char(content: Seq<char>, c: char)
    ensures
        content.contains(c) == text::find(content, seq![c]) is Some,
{
    text::lemma_find(content, seq![c]);
    if content.contains(c) {
        let i = choose|i: int| 0 <= i < content.len() && content[i] == c;
        assert(content.subrange(i, i + 1) =~= seq![c]);
        assert(text::occurs_at(content, seq![c], i));
    }
    if text::contains(content, seq![c]) {
        let i = choose|i: int| text::occurs_at(content, seq![c], i);
        assert(content.subrange(i, i + 1)[0] == c);
        assert(content[i] == c);
    }
}

/// `text` with the math of Bear in the delimiters of MathJax: first what stands between double
/// dollars, then what stands between single ones.
pub open spec fn math_of(text: Seq<char>) -> Seq<char> {
    with_math(with_math(text, "$$"@, "$$"@, true), "$"@, "$"@, false)
}

/// Converts the math delimiters of Bear to those of MathJax: `$$…$$` over several lines is a
/// block, on one line it is inline math like `$…$`.
pub fn convert_math(text: &str) -> (result: String)
    ensures
        result@ == math_of(text@),
{
    proof {
        reveal_strlit("$$");
        reveal_strlit("$");
    }
    let doubled = replace_math_delimiters(text, "$$", "$$", true);
    replace_math_delimiters(doubled.as_str(), "$", "$", false)
}

/// The lesser of two positions.
pub open spec fn earlier(a: Option<int>, b: Option<int>) -> Option<int> {
    match (a, b) {
        (Some(x), Some(y)) => Some(if x <= y {
            x
        } else {
            y
        }),
        (Some(x), None) => Some(x),
        (None, y) => y,
    }
}

/// Where the first code element begins.
pub open spec fn code_start(html: Seq<char>) -> Option<int> {
    earlier(text::find(html, "<code"@), text::find(html, "<pre"@))
}

/// The end tag of the code element that the text begins with.
pub open spec fn end_tag(html: Seq<char>) -> Seq<char> {
    if text::starts_with(html, "<pre"@) {
        "</pre>"@
    } else {
        "</code>"@
    }
}

/// The end of the code element that the text begins with: behind its end tag, or the end of the
/// text where there is no end tag.
pub open spec fn code_end(html: Seq<char>) -> int {
    let content = match text::find(html, ">"@) {
        Some(i) => i + 1,
        None => html.len() as int,
    };
    match text::find(html.skip(content), end_tag(html)) {
        Some(i) => content + i + end_tag(html).len(),
        None => html.len() as int,
    }
}

/// A code element has a beginning and an end inside the text.
pub proof fn lemma_code(html: Seq<char>)
    ensures
        code_start(html) matches Some(start) ==> {
            &&& 0 <= start < html.len()
            &&& 0 < code_end(html.skip(start)) <= html.len() - start
        },
{
    reveal_strlit("<code");
    reveal_strlit("<pre");
    reveal_strlit("</code>");
    reveal_strlit("</pre>");
    reveal_strlit(">");
    text::lemma_find(html, "<code"@);
    text::lemma_find(html, "<pre"@);
    if let Some(start) = code_start(html) {
        let rest = html.skip(start);
        text::lemma_find(rest, ">"@);
        let content = match text::find(rest, ">"@) {
            Some(i) => i + 1,
            None => rest.len() as int,
        };
        text::lemma_find(rest.skip(content), end_tag(rest));
    }
}

/// `html` with its math converted, except inside code elements.
pub open spec fn math_outside_code(html: Seq<char>) -> Seq<char>
    decreases html.len(),
{
    proof {
        lemma_code(html);
    }
    match code_start(html) {
        None => math_of(html),
        Some(start) => {
            let rest = html.skip(start);
            math_of(html.take(start)) + rest.take(code_end(rest)) + math_outside_code(
                rest.skip(code_end(rest)),
            )
        },
    }
}

/// Where the first code element begins.
fn find_code(html: &[char]) -> (position: Option<usize>)
    ensures
        position is Some == code_start(html@) is Some,
        position matches Some(i) ==> code_start(html@) == Some(i as int) && i < html.len(),
{
    let code_tag = chars::to_chars("<code");
    let pre_tag = chars::to_chars("<pre");
    proof {
        lemma_code(html@);
    }
    match (chars::find(html, code_tag.as_slice()), chars::find(html, pre_tag.as_slice())) {
        (Some(a), Some(b)) => Some(if a <= b {
            a
        } else {
            b
        }),
        (Some(a), None) => Some(a),
        (None, b) => b,
    }
}

/// The end of the code element that the text begins with.
fn find_code_end(html: &[char]) -> (position: usize)
    ensures
        position == code_end(html@),
        position <= html@.len(),
{
    let pre_tag = chars::to_chars("<pre");
    let close = if chars::occurs_at(html, pre_tag.as_slice(), 0) {
        chars::to_chars("</pre>")
    } else {
        chars::to_chars("</code>")
    };
    let bracket = chars::to_chars(">");
    proof {
        reveal_strlit(">");
    }
    let content = match chars::find(html, bracket.as_slice()) {
        Some(i) => i + 1,
        None => html.len(),
    };
    let tail = chars::rest(html, content);
    match chars::find(tail, close.as_slice()) {
        Some(i) => {
            assert(content + i + close@.len() <= html.len());
            content + i + close.len()
        },
        None => html.len(),
    }
}

/// Converts the math in an HTML text, except inside `<code>` and `<pre>` elements.
pub fn convert_math_html(html: &str) -> (result: String)
    ensures
        result@ == math_outside_code(html@),
{
    let html_chars = chars::to_chars(html);
    let mut result = String::new();
    let mut tail: &[char] = html_chars.as_slice();
    loop
        invariant
            result@ + math_outside_code(tail@) == math_outside_code(html@),
        decreases tail@.len(),
    {
        proof {
            lemma_code(tail@);
        }
        match find_code(tail) {
            None => {
                let converted = convert_math(chars::from_chars(tail).as_str());
                result.append(converted.as_str());
                return result;
            },
            Some(start) => {
                let converted = convert_math(chars::from_chars(chars::head(tail, start)).as_str());
                result.append(converted.as_str());
                tail = chars::rest(tail, start);
                let end = find_code_end(tail);
                chars::push_chars(&mut result, chars::head(tail, end));
                tail = chars::rest(tail, end);
            },
        }
    }
}

/// The HTML of a card text whose images are in place: Markdown first, then math, so that the
/// backslashes of the math delimiters are never read as Markdown.
pub open spec fn rendered(text: Seq<char>) -> Seq<char> {
    math_outside_code(markdown_html(text, true, true, true))
}

/// Renders a card text whose images are in place.
pub fn render_text(text: &str) -> (html: String)
    ensures
        html@ == rendered(text@),
{
    let html = markdown_to_html(text);
    convert_math_html(html.as_str())
}

} // verus!
