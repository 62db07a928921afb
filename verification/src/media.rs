//! Images in messages: their media types, where they come from and how they are embedded.

use crate::error::{AppError, AppResult, EXIT_ARGS, Failure, failure};
use crate::text::{
    ascii_lower, chars_of, lemma_take_full, lemma_take_step, lines, lines_of, opt_text, str_eq,
    substring, texts, to_ascii_lower, trim, trimmed,
};
use vstd::prelude::*;

verus! {

#[derive(Debug)]
pub struct MessageImage {
    pub media_type: String,
    pub data: String,
}

/// What an image is: its media type and its data in base64.
pub struct ImageView {
    pub media_type: Seq<char>,
    pub data: Seq<char>,
}

impl View for MessageImage {
    type V = ImageView;

    open spec fn view(&self) -> ImageView {
        ImageView { media_type: self.media_type@, data: self.data@ }
    }
}

pub open spec fn image_views(v: Seq<MessageImage>) -> Seq<ImageView> {
    v.map_values(|i: MessageImage| i@)
}

pub proof fn lemma_images_push(v: Seq<MessageImage>, i: MessageImage)
    ensures
        image_views(v.push(i)) == image_views(v).push(i@),
{
    assert(image_views(v.push(i)) =~= image_views(v).push(i@));
}

/// A digit of base64.
pub open spec fn base64_digit(n: int) -> char {
    "ABCDEFGHIJKLMNOPQRSTUVWXYZabcdefghijklmnopqrstuvwxyz0123456789+/"@[n]
}

/// The standard base64 text of bytes: four digits for each three of them. Where one or two are
/// left at the end, the digits that they do not reach are equals signs.
pub open spec fn base64_text(b: Seq<u8>) -> Seq<char>
    decreases b.len(),
{
    if b.len() == 0 {
        Seq::empty()
    } else if b.len() == 1 {
        let n = b[0] as int * 16;
        seq![base64_digit(n / 64), base64_digit(n % 64), '=', '=']
    } else if b.len() == 2 {
        let n = (b[0] as int * 256 + b[1] as int) * 4;
        seq![base64_digit(n / 4096), base64_digit(n / 64 % 64), base64_digit(n % 64), '=']
    } else {
        let n = b[0] as int * 65536 + b[1] as int * 256 + b[2] as int;
        seq![
            base64_digit(n / 262144),
            base64_digit(n / 4096 % 64),
            base64_digit(n / 64 % 64),
            base64_digit(n % 64),
        ] + base64_text(b.skip(3))
    }
}

/// A text in base64 has four characters for each three bytes begun.
pub proof fn law_base64_length(b: Seq<u8>)
    ensures
        base64_text(b).len() == 4 * ((b.len() + 2) / 3),
    decreases b.len(),
{
    if b.len() >= 3 {
        law_base64_length(b.skip(3));
    }
}

/// `Engine::encode` of `base64::engine::general_purpose::STANDARD`: the padded text of bytes in
/// the standard alphabet. Its length always fits, as a slice never holds more than `isize::MAX`
/// bytes.
#[verifier::external_body]
fn encode_base64(bytes: &[u8]) -> (r: String)
    ensures
        r@ == base64_text(bytes@),
{
    base64::Engine::encode(&base64::engine::general_purpose::STANDARD, bytes)
}

impl MessageImage {
    pub fn from_bytes(bytes: &[u8], media_type: &str) -> (r: MessageImage)
        ensures
            r@ == (ImageView { media_type: media_type@, data: base64_text(bytes@) }),
    {
        MessageImage { media_type: media_type.to_owned(), data: encode_base64(bytes) }
    }

    pub fn data_url(&self) -> (r: String)
        ensures
            r@ == "data:"@ + self@.media_type + ";base64,"@ + self@.data,
    {
        "data:".to_owned().concat(self.media_type.as_str()).concat(";base64,").concat(
            self.data.as_str(),
        )
    }

    pub fn copy(&self) -> (r: MessageImage)
        ensures
            r@ == self@,
    {
        MessageImage { media_type: self.media_type.clone(), data: self.data.clone() }
    }
}

pub fn clone_images(v: &Vec<MessageImage>) -> (r: Vec<MessageImage>)
    ensures
        image_views(r@) == image_views(v@),
{
    let mut out: Vec<MessageImage> = Vec::new();
    let mut i: usize = 0;
    while i < v.len()
        invariant
            i <= v@.len(),
            image_views(out@) == image_views(v@).take(i as int),
        decreases v@.len() - i,
    {
        let copy = v[i].copy();
        proof {
            lemma_take_step(image_views(v@), i as int);
            lemma_images_push(out@, copy);
        }
        out.push(copy);
        i = i + 1;
    }
    proof {
        lemma_take_full(image_views(v@));
    }
    out
}

// ---------------------------------------------------------------------------
// Media types
// ---------------------------------------------------------------------------

/// The index of the last occurrence of a character, or -1.
pub open spec fn last_index(s: Seq<char>, c: char) -> int
    decreases s.len(),
{
    if s.len() == 0 {
        -1
    } else if s.last() == c {
        s.len() - 1
    } else {
        last_index(s.drop_last(), c)
    }
}

pub proof fn lemma_last_index(s: Seq<char>, c: char)
    ensures
        -1 <= last_index(s, c) < s.len(),
        last_index(s, c) >= 0 ==> s[last_index(s, c)] == c,
        forall|k: int| last_index(s, c) < k < s.len() ==> s[k] != c,
    decreases s.len(),
{
    if s.len() > 0 && s.last() != c {
        lemma_last_index(s.drop_last(), c);
        assert forall|k: int| last_index(s, c) < k < s.len() implies s[k] != c by {
            if k < s.len() - 1 {
                assert(s.drop_last()[k] == s[k]);
            }
        }
    }
}

/// The index right after the last occurrence of a character; zero where there is none.
pub fn after_last(c: &[char], ch: char) -> (r: usize)
    ensures
        r == last_index(c@, ch) + 1,
        r <= c@.len(),
{
    let mut i: usize = c.len();
    proof {
        lemma_take_full(c@);
    }
    while i > 0
        invariant
            i <= c@.len(),
            last_index(c@, ch) == last_index(c@.take(i as int), ch),
        decreases i,
    {
        proof {
            lemma_take_step(c@, i - 1);
        }
        if c[i - 1] == ch {
            return i;
        }
        i = i - 1;
    }
    proof {
        assert(c@.take(0).len() == 0);
    }
    0
}

/// A path without the slashes and the `.` components at its end.
pub open spec fn without_tail(p: Seq<char>) -> Seq<char>
    decreases p.len(),
{
    if p.len() > 0 && p.last() == '/' {
        without_tail(p.drop_last())
    } else if p.len() >= 2 && p.last() == '.' && p[p.len() - 2] == '/' {
        without_tail(p.drop_last())
    } else {
        p
    }
}

/// The last component of a path.
pub open spec fn file_name(p: Seq<char>) -> Seq<char> {
    let q = without_tail(p);
    q.skip(last_index(q, '/') + 1)
}

/// The extension of a file name: what follows its last dot, unless nothing else stands before
/// that dot.
pub open spec fn extension(p: Seq<char>) -> Option<Seq<char>> {
    let name = file_name(p);
    let dot = last_index(name, '.');
    if dot > 0 && name != ".."@ {
        Some(name.skip(dot + 1))
    } else {
        None
    }
}

pub fn file_name_of(path: &str) -> (r: String)
    ensures
        r@ == file_name(path@),
{
    let c = chars_of(path);
    let mut n: usize = c.len();
    proof {
        lemma_take_full(c@);
    }
    while n > 0 && (c[n - 1] == '/' || (n >= 2 && c[n - 1] == '.' && c[n - 2] == '/'))
        invariant
            n <= c@.len(),
            c@ == path@,
            without_tail(c@.take(n as int)) == without_tail(path@),
        decreases n,
    {
        proof {
            lemma_take_step(c@, n - 1);
        }
        n = n - 1;
    }
    proof {
        if n > 0 {
            lemma_take_step(c@, n - 1);
        }
    }
    let q = vstd::slice::slice_subrange(c.as_slice(), 0, n);
    proof {
        assert(q@ =~= c@.take(n as int));
        assert(q@ == without_tail(path@));
    }
    let start: usize = after_last(q, '/');
    let r = substring(q, start, n);
    proof {
        assert(r@ =~= q@.skip(start as int));
    }
    r
}

pub fn extension_of(path: &str) -> (r: Option<String>)
    ensures
        opt_text(r) == extension(path@),
{
    let name = file_name_of(path);
    let c = chars_of(name.as_str());
    let after: usize = after_last(c.as_slice(), '.');
    if after > 1 && !str_eq(name.as_str(), "..") {
        let r = substring(c.as_slice(), after, c.len());
        proof {
            assert(r@ =~= name@.skip(after as int));
        }
        Some(r)
    } else {
        None
    }
}

pub open spec fn bytes_at(b: Seq<u8>, p: Seq<u8>, i: int) -> bool {
    i + p.len() <= b.len() && b.subrange(i, i + p.len()) == p
}

fn has_bytes_at(b: &[u8], p: &[u8], i: usize) -> (r: bool)
    requires
        i + p@.len() <= usize::MAX,
    ensures
        r == bytes_at(b@, p@, i as int),
{
    if b.len() < i || b.len() - i < p.len() {
        return false;
    }
    let mut k: usize = 0;
    while k < p.len()
        invariant
            k <= p@.len(),
            i + p@.len() <= b@.len(),
            i + p@.len() <= usize::MAX,
            forall|j: int| 0 <= j < k ==> b@[i + j] == p@[j],
        decreases p@.len() - k,
    {
        if b[i + k] != p[k] {
            proof {
                assert(b@.subrange(i as int, i + p@.len())[k as int] != p@[k as int]);
            }
            return false;
        }
        k = k + 1;
    }
    proof {
        assert(b@.subrange(i as int, i + p@.len()) =~= p@);
    }
    true
}

/// The media type that the first bytes of a file show.
pub open spec fn magic_type(b: Seq<u8>) -> Option<&'static str> {
    if bytes_at(b, seq![0x89u8, 0x50, 0x4e, 0x47, 0x0d, 0x0a, 0x1a, 0x0a], 0) {
        Some("image/png")
    } else if bytes_at(b, seq![0xffu8, 0xd8, 0xff], 0) {
        Some("image/jpeg")
    } else if bytes_at(b, seq![0x47u8, 0x49, 0x46, 0x38, 0x37, 0x61], 0) || bytes_at(
        b,
        seq![0x47u8, 0x49, 0x46, 0x38, 0x39, 0x61],
        0,
    ) {
        Some("image/gif")
    } else if bytes_at(b, seq![0x42u8, 0x4d], 0) {
        Some("image/bmp")
    } else if bytes_at(b, seq![0x52u8, 0x49, 0x46, 0x46], 0) && bytes_at(
        b,
        seq![0x57u8, 0x45, 0x42, 0x50],
        8,
    ) {
        Some("image/webp")
    } else {
        None
    }
}

/// The media type that an extension stands for.
pub open spec fn extension_type(ext: Seq<char>) -> Option<&'static str> {
    if ext == "png"@ {
        Some("image/png")
    } else if ext == "jpg"@ || ext == "jpeg"@ {
        Some("image/jpeg")
    } else if ext == "gif"@ {
        Some("image/gif")
    } else if ext == "bmp"@ {
        Some("image/bmp")
    } else if ext == "webp"@ {
        Some("image/webp")
    } else {
        None
    }
}

/// The media type of an image: by its first bytes, else by its extension in any case.
pub open spec fn media_type(path: Seq<char>, b: Seq<u8>) -> Option<&'static str> {
    match magic_type(b) {
        Some(t) => Some(t),
        None => match extension(path) {
            Some(ext) => extension_type(ascii_lower(ext)),
            None => None,
        },
    }
}

fn magic_type_of(b: &[u8]) -> (r: Option<&'static str>)
    ensures
        r == magic_type(b@),
{
    let png = [0x89u8, 0x50, 0x4e, 0x47, 0x0d, 0x0a, 0x1a, 0x0a];
    let jpeg = [0xffu8, 0xd8, 0xff];
    let gif87 = [0x47u8, 0x49, 0x46, 0x38, 0x37, 0x61];
    let gif89 = [0x47u8, 0x49, 0x46, 0x38, 0x39, 0x61];
    let bmp = [0x42u8, 0x4d];
    let riff = [0x52u8, 0x49, 0x46, 0x46];
    let webp = [0x57u8, 0x45, 0x42, 0x50];
    proof {
        assert(png@ =~= seq![0x89u8, 0x50, 0x4e, 0x47, 0x0d, 0x0a, 0x1a, 0x0a]);
        assert(jpeg@ =~= seq![0xffu8, 0xd8, 0xff]);
        assert(gif87@ =~= seq![0x47u8, 0x49, 0x46, 0x38, 0x37, 0x61]);
        assert(gif89@ =~= seq![0x47u8, 0x49, 0x46, 0x38, 0x39, 0x61]);
        assert(bmp@ =~= seq![0x42u8, 0x4d]);
        assert(riff@ =~= seq![0x52u8, 0x49, 0x46, 0x46]);
        assert(webp@ =~= seq![0x57u8, 0x45, 0x42, 0x50]);
    }
    if has_bytes_at(b, &png, 0) {
        Some("image/png")
    } else if has_bytes_at(b, &jpeg, 0) {
        Some("image/jpeg")
    } else if has_bytes_at(b, &gif87, 0) || has_bytes_at(b, &gif89, 0) {
        Some("image/gif")
    } else if has_bytes_at(b, &bmp, 0) {
        Some("image/bmp")
    } else if has_bytes_at(b, &riff, 0) && has_bytes_at(b, &webp, 8) {
        Some("image/webp")
    } else {
        None
    }
}

pub fn detect_image_media_type(path: &str, bytes: &[u8]) -> (r: Option<&'static str>)
    ensures
        r == media_type(path@, bytes@),
{
    if let Some(t) = magic_type_of(bytes) {
        return Some(t);
    }
    match extension_of(path) {
        None => None,
        Some(raw) => {
            let ext = to_ascii_lower(raw.as_str());
            let e = ext.as_str();
            if str_eq(e, "png") {
                Some("image/png")
            } else if str_eq(e, "jpg") || str_eq(e, "jpeg") {
                Some("image/jpeg")
            } else if str_eq(e, "gif") {
                Some("image/gif")
            } else if str_eq(e, "bmp") {
                Some("image/bmp")
            } else if str_eq(e, "webp") {
                Some("image/webp")
            } else {
                None
            }
        },
    }
}

// ---------------------------------------------------------------------------
// Inputs
// ---------------------------------------------------------------------------

/// A file that was to be read: its contents, or why it could not be read.
#[derive(Debug)]
pub struct ImageFile {
    pub path: String,
    pub content: Result<Vec<u8>, String>,
}

/// What becomes of a file that was to be read.
pub open spec fn image_outcome(f: ImageFile) -> Result<ImageView, Failure> {
    match f.content {
        Err(text) => Err(
            failure(EXIT_ARGS, "failed to read image `"@ + f.path@ + "`: "@ + text@),
        ),
        Ok(bytes) => match media_type(f.path@, bytes@) {
            Some(t) => Ok(ImageView { media_type: t@, data: base64_text(bytes@) }),
            None => Err(
                failure(
                    EXIT_ARGS,
                    "unsupported image format for `"@ + f.path@
                        + "`; supported types: image/png, image/jpeg, image/webp, image/gif, image/bmp"@,
                ),
            ),
        },
    }
}

/// The outcome of an operation by its views.
pub open spec fn image_result(r: AppResult<MessageImage>) -> Result<ImageView, Failure> {
    match r {
        Ok(i) => Ok(i@),
        Err(e) => Err(e@),
    }
}

pub fn read_image_file(file: &ImageFile) -> (r: AppResult<MessageImage>)
    ensures
        image_result(r) == image_outcome(*file),
{
    match &file.content {
        Err(text) => {
            let message = "failed to read image `".to_owned().concat(file.path.as_str()).concat(
                "`: ",
            ).concat(text.as_str());
            Err(AppError::new(EXIT_ARGS, message.as_str()))
        },
        Ok(bytes) => match detect_image_media_type(file.path.as_str(), bytes.as_slice()) {
            Some(t) => Ok(MessageImage::from_bytes(bytes.as_slice(), t)),
            None => {
                let message = "unsupported image format for `".to_owned().concat(
                    file.path.as_str(),
                ).concat(
                    "`; supported types: image/png, image/jpeg, image/webp, image/gif, image/bmp",
                );
                Err(AppError::new(EXIT_ARGS, message.as_str()))
            },
        },
    }
}

/// The images of the files in their order; the first failure ends it.
pub open spec fn images_of_files(files: Seq<ImageFile>) -> Result<Seq<ImageView>, Failure>
    decreases files.len(),
{
    if files.len() == 0 {
        Ok(Seq::empty())
    } else {
        match images_of_files(files.drop_last()) {
            Err(e) => Err(e),
            Ok(before) => match image_outcome(files.last()) {
                Err(e) => Err(e),
                Ok(i) => Ok(before.push(i)),
            },
        }
    }
}

pub open spec fn images_with_clipboard(
    files: Seq<ImageFile>,
    clipboard: Option<Result<ImageView, Failure>>,
) -> Result<Seq<ImageView>, Failure> {
    match images_of_files(files) {
        Err(e) => Err(e),
        Ok(images) => match clipboard {
            None => Ok(images),
            Some(Err(e)) => Err(e),
            Some(Ok(i)) => Ok(images.push(i)),
        },
    }
}

pub open spec fn clipboard_view(c: Option<AppResult<MessageImage>>) -> Option<
    Result<ImageView, Failure>,
> {
    match c {
        None => None,
        Some(r) => Some(image_result(r)),
    }
}

pub open spec fn images_result(r: AppResult<Vec<MessageImage>>) -> Result<Seq<ImageView>, Failure> {
    match r {
        Ok(v) => Ok(image_views(v@)),
        Err(e) => Err(e@),
    }
}

proof fn lemma_files_error(files: Seq<ImageFile>, i: int)
    requires
        0 <= i <= files.len(),
        images_of_files(files.take(i)) is Err,
    ensures
        images_of_files(files) == images_of_files(files.take(i)),
    decreases files.len() - i,
{
    if i == files.len() {
        lemma_take_full(files);
    } else {
        lemma_take_step(files, i);
        lemma_files_error(files, i + 1);
    }
}

/// The images of a request: those of the files, then the one of the clipboard.
pub fn read_image_inputs(
    files: &Vec<ImageFile>,
    clipboard: Option<AppResult<MessageImage>>,
) -> (r: AppResult<Vec<MessageImage>>)
    ensures
        images_result(r) == images_with_clipboard(files@, clipboard_view(clipboard)),
{
    let mut images: Vec<MessageImage> = Vec::new();
    let mut i: usize = 0;
    proof {
        assert(image_views(images@) =~= Seq::<ImageView>::empty());
    }
    while i < files.len()
        invariant
            i <= files@.len(),
            images_of_files(files@.take(i as int)) == Ok::<Seq<ImageView>, Failure>(
                image_views(images@),
            ),
        decreases files@.len() - i,
    {
        proof {
            lemma_take_step(files@, i as int);
        }
        match read_image_file(&files[i]) {
            Ok(image) => {
                proof {
                    lemma_images_push(images@, image);
                }
                images.push(image);
            },
            Err(e) => {
                proof {
                    lemma_files_error(files@, i + 1);
                }
                return Err(e);
            },
        }
        i = i + 1;
    }
    proof {
        lemma_take_full(files@);
    }
    match clipboard {
        None => Ok(images),
        Some(Err(e)) => Err(e),
        Some(Ok(image)) => {
            proof {
                lemma_images_push(images@, image);
            }
            images.push(image);
            Ok(images)
        },
    }
}

/// The media types that are looked for, most wanted first.
pub open spec fn supported_types() -> Seq<&'static str> {
    seq!["image/png", "image/jpeg", "image/webp", "image/gif", "image/bmp"]
}

pub open spec fn offers(targets: Seq<char>, t: Seq<char>) -> bool {
    exists|i: int| 0 <= i < lines(targets).len() && trimmed(#[trigger] lines(targets)[i]) == t
}

/// The first supported type from index `i` on that is offered.
pub open spec fn offered_from(targets: Seq<char>, i: int) -> Option<&'static str>
    decreases 5 - i,
{
    if i < 0 || i >= 5 {
        None
    } else if offers(targets, supported_types()[i]@) {
        Some(supported_types()[i])
    } else {
        offered_from(targets, i + 1)
    }
}

fn has_target(targets: &Vec<String>, t: &str) -> (r: bool)
    ensures
        r == exists|i: int| 0 <= i < targets@.len() && trimmed(#[trigger] texts(targets@)[i]) == t@,
{
    let mut i: usize = 0;
    while i < targets.len()
        invariant
            i <= targets@.len(),
            forall|k: int| 0 <= k < i ==> trimmed(#[trigger] texts(targets@)[k]) != t@,
        decreases targets@.len() - i,
    {
        let line = trim(targets[i].as_str());
        if str_eq(line.as_str(), t) {
            proof {
                assert(trimmed(texts(targets@)[i as int]) == t@);
            }
            return true;
        }
        i = i + 1;
    }
    false
}

/// The media type to ask the clipboard for, given the list of what it offers.
pub fn pick_clipboard_type(targets: &str) -> (r: Option<&'static str>)
    ensures
        r == offered_from(targets@, 0),
{
    let all = lines_of(targets);
    let set = ["image/png", "image/jpeg", "image/webp", "image/gif", "image/bmp"];
    proof {
        assert(set@ =~= supported_types());
    }
    let mut i: usize = 0;
    while i < 5
        invariant
            i <= 5,
            set@ == supported_types(),
            texts(all@) == lines(targets@),
            offered_from(targets@, 0) == offered_from(targets@, i as int),
        decreases 5 - i,
    {
        if has_target(&all, set[i]) {
            return Some(set[i]);
        }
        i = i + 1;
    }
    None
}

/// What a clipboard tool gave: an image if it succeeded with some bytes.
pub fn clipboard_image(success: bool, bytes: &[u8], media_type: &str) -> (r: Option<MessageImage>)
    ensures
        r is Some <==> success && bytes@.len() > 0,
        r matches Some(i) ==> i@ == (ImageView {
            media_type: media_type@,
            data: base64_text(bytes@),
        }),
{
    if !success || bytes.len() == 0 {
        None
    } else {
        Some(MessageImage::from_bytes(bytes, media_type))
    }
}

/// The image that the first tool with one gave.
pub fn read_clipboard_image(
    wayland: Option<MessageImage>,
    xclip: Option<MessageImage>,
    pngpaste: Option<MessageImage>,
) -> (r: AppResult<MessageImage>)
    ensures
        match (wayland, xclip, pngpaste) {
            (Some(i), _, _) => r == Ok::<MessageImage, AppError>(i),
            (None, Some(i), _) => r == Ok::<MessageImage, AppError>(i),
            (None, None, Some(i)) => r == Ok::<MessageImage, AppError>(i),
            (None, None, None) => r matches Err(e) && e@ == failure(
                EXIT_ARGS,
                "failed to read clipboard image; copy an image first and ensure `wl-paste`, `xclip`, or `pngpaste` is available"@,
            ),
        },
{
    if let Some(i) = wayland {
        return Ok(i);
    }
    if let Some(i) = xclip {
        return Ok(i);
    }
    match pngpaste {
        Some(i) => Ok(i),
        None => Err(
            AppError::new(
                EXIT_ARGS,
                "failed to read clipboard image; copy an image first and ensure `wl-paste`, `xclip`, or `pngpaste` is available",
            ),
        ),
    }
}

/// The text that the first tool with an answer gave, unless it is empty.
pub fn read_clipboard_text(
    wayland: Option<String>,
    xclip: Option<String>,
    pbpaste: Option<String>,
) -> (r: AppResult<String>)
    ensures
        ({
            let first = match (wayland, xclip, pbpaste) {
                (Some(t), _, _) => Some(t),
                (None, Some(t), _) => Some(t),
                (None, None, t) => t,
            };
            match first {
                Some(t) if t@.len() > 0 => r == Ok::<String, AppError>(t),
                _ => r matches Err(e) && e@ == failure(
                    EXIT_ARGS,
                    "failed to read clipboard text; copy some text first and ensure `wl-paste`, `xclip`, or `pbpaste` is available"@,
                ),
            }
        }),
{
    let first = match wayland {
        Some(t) => Some(t),
        None => match xclip {
            Some(t) => Some(t),
            None => pbpaste,
        },
    };
    if let Some(t) = first {
        if !t.as_str().is_empty() {
            return Ok(t);
        }
    }
    Err(
        AppError::new(
            EXIT_ARGS,
            "failed to read clipboard text; copy some text first and ensure `wl-paste`, `xclip`, or `pbpaste` is available",
        ),
    )
}

/// Magic bytes decide before the name does: a file that shows its type has it under any name.
pub proof fn law_magic_before_name(p: Seq<char>, q: Seq<char>, b: Seq<u8>)
    requires
        magic_type(b) is Some,
    ensures
        media_type(p, b) == media_type(q, b),
{
}

} // verus!
