use bear_anki_sync::render::{
    attached_image, convert_math, convert_math_html, escape_html_attr, is_image,
    markdown_image_pattern, markdown_to_html, percent_encode_filename, referenced_images,
    render_for_anki, render_text, replace_md_image_with_pattern, upload_image, ImagePass,
    NoteImage, Rendering,
};
use bear_anki_sync::text_map::TextMap;

fn replace_md_image(text: &str, filename: &str, anki_src: &str) -> String {
    let close = format!("]({})", filename);
    replace_md_image_with_pattern(text, &close, anki_src)
}

#[test]
fn converts_display_math() {
    let input = "Before\n$$\nE = mc^2\n$$\nAfter";
    let output = convert_math(input);
    assert!(output.contains("\\["), "should have display math open");
    assert!(output.contains("\\]"), "should have display math close");
    assert!(!output.contains("$$"));
}

#[test]
fn converts_inline_double_dollar() {
    let output = convert_math("The formula $$E=mc^2$$ is famous.");
    assert_eq!(output, "The formula \\(E=mc^2\\) is famous.");
}

#[test]
fn converts_inline_single_dollar() {
    let output = convert_math("Let $x = 5$ be given.");
    assert_eq!(output, "Let \\(x = 5\\) be given.");
}

#[test]
fn double_dollar_takes_priority_over_single() {
    // $$...$$ should not be split into two $...$ matches
    let output = convert_math("$$a + b$$");
    assert_eq!(output, "\\(a + b\\)");
}

#[test]
fn unclosed_delimiter_passes_through() {
    let output = convert_math("unclosed $expression");
    assert!(output.contains('$'));
}

#[test]
fn no_math_passes_through_unchanged() {
    let input = "No math here, just text with a price tag $5.";
    // Single $ with no closing $ — passes through
    let output = convert_math(input);
    assert!(output.contains('$'));
}

#[test]
fn convert_math_html_skips_code_spans() {
    let html = "<p>See <code>$x$</code> and $y$</p>";
    let out = convert_math_html(html);
    assert!(
        out.contains("<code>$x$</code>"),
        "code span should be unchanged"
    );
    assert!(
        out.contains("\\(y\\)"),
        "math outside code should be converted"
    );
}

#[test]
fn convert_math_html_skips_pre_blocks() {
    let html = "<pre><code>$$block$$</code></pre><p>$x$</p>";
    let out = convert_math_html(html);
    assert!(out.contains("$$block$$"), "pre block should be unchanged");
    assert!(
        out.contains("\\(x\\)"),
        "math outside pre should be converted"
    );
}

#[test]
fn replaces_markdown_image_no_alt() {
    let out = replace_md_image("See ![](photo.png) here", "photo.png", "bear_photo.png");
    assert_eq!(out, "See <img src=\"bear_photo.png\"> here");
}

#[test]
fn replaces_markdown_image_preserves_alt() {
    let out = replace_md_image(
        "See ![a fluffy cat](photo.png) here",
        "photo.png",
        "bear_photo.png",
    );
    assert_eq!(
        out,
        "See <img src=\"bear_photo.png\" alt=\"a fluffy cat\"> here"
    );
}

#[test]
fn alt_text_special_chars_are_escaped() {
    let out = replace_md_image(r#"![<diagram> "A&B"](img.png)"#, "img.png", "bear_img.png");
    assert_eq!(
        out,
        "<img src=\"bear_img.png\" alt=\"&lt;diagram&gt; &quot;A&amp;B&quot;\">"
    );
}

#[test]
fn leaves_unrelated_text_unchanged() {
    let out = replace_md_image("no image here", "photo.png", "bear_photo.png");
    assert_eq!(out, "no image here");
}

#[test]
fn replaces_multiple_occurrences() {
    let out = replace_md_image("![](a.png) and ![](a.png)", "a.png", "bear_a.png");
    assert_eq!(out, "<img src=\"bear_a.png\"> and <img src=\"bear_a.png\">");
}

#[test]
fn percent_encode_encodes_space() {
    assert_eq!(percent_encode_filename("my image.png"), "my%20image.png");
}

#[test]
fn percent_encode_encodes_special_chars() {
    assert_eq!(percent_encode_filename("a%b#c?.png"), "a%25b%23c%3F.png");
}

#[test]
fn percent_encode_leaves_plain_names_unchanged() {
    assert_eq!(percent_encode_filename("photo.png"), "photo.png");
}

#[test]
fn replace_md_image_handles_percent_encoded_filename() {
    // Bear writes "![](my%20image.png)" in markdown for a file named "my image.png"
    let out = replace_md_image(
        "See ![](my%20image.png) here",
        "my%20image.png",
        "bear_my image.png",
    );
    assert_eq!(out, "See <img src=\"bear_my image.png\"> here");
}

#[test]
fn referenced_images_finds_raw_and_percent_encoded_filenames() {
    let images = vec![
        NoteImage::new(
            "my image.png".into(),
            "note:image-1".into(),
            b"one".to_vec(),
        ),
        NoteImage::new("other.png".into(), "note:image-2".into(), b"two".to_vec()),
    ];

    let refs = referenced_images("See ![](my%20image.png)", &images);
    assert_eq!(refs.len(), 1);
    assert_eq!(refs[0].filename, "my image.png");
}

#[test]
fn anki_filenames_include_attachment_identity_hash() {
    let a = NoteImage::new("image.png".into(), "note-a:image".into(), b"same".to_vec());
    let b = NoteImage::new("image.png".into(), "note-b:image".into(), b"same".to_vec());
    assert_ne!(a.anki_filename(), b.anki_filename());
    assert!(a.anki_filename().starts_with("bear_"));
    assert!(a.anki_filename().ends_with("_image.png"));
}

#[test]
fn escape_html_attr_handles_all_special_chars() {
    assert_eq!(
        escape_html_attr("\"A\" & <B>"),
        "&quot;A&quot; &amp; &lt;B&gt;"
    );
}

#[test]
fn escape_html_attr_leaves_plain_text_unchanged() {
    assert_eq!(escape_html_attr("plain text"), "plain text");
}

fn html_of(rendering: Rendering) -> String {
    match rendering {
        Rendering::Html(html) => html,
        Rendering::Upload(i) => panic!("image {i} is not uploaded"),
    }
}

fn upload_of(rendering: Rendering) -> usize {
    match rendering {
        Rendering::Upload(i) => i,
        Rendering::Html(html) => panic!("nothing to upload: {html}"),
    }
}

#[test]
fn markdown_is_rendered_with_its_extensions() {
    assert_eq!(markdown_to_html("**bold**"), "<p><strong>bold</strong></p>\n");
    assert_eq!(markdown_to_html("~~gone~~"), "<p><del>gone</del></p>\n");
    assert!(markdown_to_html("| a |\n|---|\n| b |").contains("<table>"));
    assert!(markdown_to_html("- [x] done").contains("type=\"checkbox\""));
}

#[test]
fn math_is_converted_behind_markdown() {
    assert_eq!(render_text("Let $x$ be."), "<p>Let \\(x\\) be.</p>\n");
    assert_eq!(render_text("See `$x$`."), "<p>See <code>$x$</code>.</p>\n");
}

#[test]
fn code_behind_code_is_left_untouched() {
    let html = "<code>$a$</code> $b$ <pre>$c$</pre> $d$";
    assert_eq!(
        convert_math_html(html),
        "<code>$a$</code> \\(b\\) <pre>$c$</pre> \\(d\\)"
    );
    assert_eq!(convert_math_html("$a$ <code>$b$"), "\\(a\\) <code>$b$");
    assert_eq!(convert_math_html(""), "");
}

#[test]
fn blocks_take_more_than_one_line() {
    assert_eq!(convert_math("$$a\nb$$"), "\\[a\nb\\]");
    assert_eq!(convert_math("plain"), "plain");
}

#[test]
fn a_reference_needs_an_opening_bracket() {
    assert_eq!(
        replace_md_image("see [x](a.png)", "a.png", "bear_a.png"),
        "see [x](a.png)"
    );
}

#[test]
fn references_are_encoded_or_raw() {
    assert_eq!(
        markdown_image_pattern("![](my%20image.png)", "my image.png"),
        Some("](my%20image.png)".to_owned())
    );
    assert_eq!(
        markdown_image_pattern("![](my image.png)", "my image.png"),
        Some("](my image.png)".to_owned())
    );
    assert_eq!(markdown_image_pattern("text", "my image.png"), None);
}

#[test]
fn images_carry_digests() {
    let image = NoteImage::new("a.png".into(), "abc".into(), b"abc".to_vec());
    assert_eq!(image.content_hash, "ba7816bf8f01cfea");
    assert_eq!(image.anki_filename(), "bear_ba7816bf8f01cfea_a.png");
}

#[test]
fn uploads_are_base64() {
    let image = NoteImage::new("a.png".into(), "abc".into(), b"hello".to_vec());
    let (name, data) = upload_image(&image);
    assert_eq!(name, "bear_ba7816bf8f01cfea_a.png");
    assert_eq!(data, "aGVsbG8=");
    let image = NoteImage::new("a.png".into(), "abc".into(), vec![0xfb, 0xff, 0xfe]);
    assert_eq!(upload_image(&image).1, "+//+");
    let image = NoteImage::new("a.png".into(), "abc".into(), vec![1]);
    assert_eq!(upload_image(&image).1, "AQ==");
    let image = NoteImage::new("a.png".into(), "abc".into(), vec![]);
    assert_eq!(upload_image(&image).1, "");
}

#[test]
fn images_are_known_by_their_extension() {
    assert!(is_image("photo.PNG"));
    assert!(is_image("a.b.tiff"));
    assert!(is_image("png"));
    assert!(!is_image("paper.pdf"));
    assert!(!is_image("png.txt"));
    assert!(!is_image("photo."));
}

#[test]
fn attachments_are_identified_by_note_and_uuid() {
    let image = attached_image("NOTE-1", "UUID-1", "a.png".into(), b"abc".to_vec());
    assert_eq!(image.upload_key, "NOTE-1:UUID-1");
    assert_eq!(image.content_hash, "ba7816bf8f01cfea");
}

#[test]
fn an_image_is_uploaded_once() {
    let images = vec![NoteImage::new("a.png".into(), "abc".into(), b"1".to_vec())];
    let mut uploaded: TextMap<String> = TextMap::new();
    let mut first = ImagePass::new("See ![one](a.png)");
    assert_eq!(upload_of(render_for_anki(&mut first, &images, &uploaded)), 0);
    first.image_uploaded(&images, &mut uploaded);
    assert_eq!(
        html_of(render_for_anki(&mut first, &images, &uploaded)),
        "<p>See <img src=\"bear_ba7816bf8f01cfea_a.png\" alt=\"one\"></p>\n"
    );
    let mut second = ImagePass::new("See ![](a.png)");
    assert_eq!(
        html_of(render_for_anki(&mut second, &images, &uploaded)),
        "<p>See <img src=\"bear_ba7816bf8f01cfea_a.png\"></p>\n"
    );
}

#[test]
fn a_failed_upload_leaves_the_link() {
    let images = vec![
        NoteImage::new("a.png".into(), "k1".into(), b"1".to_vec()),
        NoteImage::new("b.png".into(), "abc".into(), b"2".to_vec()),
    ];
    let mut uploaded: TextMap<String> = TextMap::new();
    let mut pass = ImagePass::new("![](a.png) ![](b.png)");
    assert_eq!(upload_of(render_for_anki(&mut pass, &images, &uploaded)), 0);
    pass.image_failed();
    assert_eq!(upload_of(render_for_anki(&mut pass, &images, &uploaded)), 1);
    pass.image_uploaded(&images, &mut uploaded);
    assert_eq!(
        html_of(render_for_anki(&mut pass, &images, &uploaded)),
        "<p><img src=\"a.png\" alt=\"\" /> <img src=\"bear_ba7816bf8f01cfea_b.png\"></p>\n"
    );
}

#[test]
fn images_without_references_are_not_uploaded() {
    let images = vec![NoteImage::new("a.png".into(), "k".into(), b"1".to_vec())];
    let uploaded: TextMap<String> = TextMap::new();
    let mut pass = ImagePass::new("no image");
    assert_eq!(
        html_of(render_for_anki(&mut pass, &images, &uploaded)),
        "<p>no image</p>\n"
    );
}

#[test]
fn escaped_attributes_hold_no_quotes() {
    let escaped = escape_html_attr("\"<>&\"");
    assert!(!escaped.contains('"'));
    assert!(!escaped.contains('<'));
    assert!(!escaped.contains('>'));
}
