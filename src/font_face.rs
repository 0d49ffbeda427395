use vstd::prelude::*;
use vstd::string::*;
use crate::digits::{dec_text, push_dec};
use crate::error::SubsetError;
use crate::path::{extension, extension_of, file_stem, file_stem_of, opt_view};
use crate::unicode_range::{joined, unicode_range_text, unicodes};

verus! {

/// Standard base64 (RFC 4648 alphabet, padded, no line breaks) of `bytes`.
pub uninterp spec fn base64_of(bytes: Seq<u8>) -> Seq<char>;

/// Relies on `base64::Engine::encode` with the `STANDARD` engine: padded
/// standard-alphabet base64, without line breaks. It panics only where the
/// encoded length overflows `usize`, which the bound on the input rules out.
#[verifier::external_body]
fn encode_base64(bytes: &Vec<u8>) -> (r: String)
    requires
        bytes@.len() <= usize::MAX / 2,
    ensures
        r@ == base64_of(bytes@),
{
    base64::Engine::encode(&base64::prelude::BASE64_STANDARD, bytes)
}

/// A font container format, in the order of preference for browsers.
#[derive(Debug, Clone, Copy, PartialEq, Eq, Structural)]
pub enum FontFormat {
    Woff2,
    Woff,
    Ttf,
}

/// The CSS format tag, which is also the file extension, of a format.
pub open spec fn format_tag(f: FontFormat) -> Seq<char> {
    match f {
        FontFormat::Woff2 => "woff2"@,
        FontFormat::Woff => "woff"@,
        FontFormat::Ttf => "ttf"@,
    }
}

impl FontFormat {
    /// The CSS format tag: `woff2`, `woff` or `ttf`.
    pub fn tag(&self) -> (r: &'static str)
        ensures
            r@ == format_tag(*self),
    {
        match self {
            FontFormat::Woff2 => "woff2",
            FontFormat::Woff => "woff",
            FontFormat::Ttf => "ttf",
        }
    }
}

/// The format that a path's extension names, if any.
pub open spec fn classify_spec(path: Seq<char>) -> Option<FontFormat> {
    match extension_of(path) {
        Some(e) => if e == "ttf"@ {
            Some(FontFormat::Ttf)
        } else if e == "woff"@ {
            Some(FontFormat::Woff)
        } else if e == "woff2"@ {
            Some(FontFormat::Woff2)
        } else {
            None
        },
        None => None,
    }
}

/// Classifies a font file by its extension (`ttf`, `woff` or `woff2`); any
/// other extension, or none, is unrecognized.
pub fn classify(path: &str) -> (r: Option<FontFormat>)
    ensures
        r == classify_spec(path@),
{
    match extension(path) {
        None => None,
        Some(e) => {
            if e == String::from_str("ttf") {
                Some(FontFormat::Ttf)
            } else if e == String::from_str("woff") {
                Some(FontFormat::Woff)
            } else if e == String::from_str("woff2") {
                Some(FontFormat::Woff2)
            } else {
                None
            }
        },
    }
}

/// The last of `paths` that classifies as `f`.
pub open spec fn last_with_format(paths: Seq<String>, f: FontFormat) -> Option<Seq<char>>
    decreases paths.len(),
{
    if paths.len() == 0 {
        None
    } else if classify_spec(paths.last()@) == Some(f) {
        Some(paths.last()@)
    } else {
        last_with_format(paths.drop_last(), f)
    }
}

/// No path of `paths` has a recognized font extension (true of no paths).
pub open spec fn no_font_files(paths: Seq<String>) -> bool {
    forall|i: int| 0 <= i < paths.len() ==> classify_spec((#[trigger] paths[i])@) is None
}

/// The views of an optional string slice.
pub open spec fn opt_str_view(o: Option<&str>) -> Option<Seq<char>> {
    match o {
        Some(s) => Some(s@),
        None => None,
    }
}

/// What one `@font-face` declaration is built from.
pub struct FontFaceParameters {
    pub font_family: String,
    pub font_weight: u32,
    /// The text whose characters the declaration covers.
    pub text: String,
    pub woff2_input_path: Option<String>,
    pub woff_input_path: Option<String>,
    pub ttf_input_path: Option<String>,
    /// Where non-inlined font files are served from.
    pub output_base_url: Option<String>,
}

/// The mathematical value of `FontFaceParameters`.
pub struct ParamsView {
    pub font_family: Seq<char>,
    pub font_weight: u32,
    pub text: Seq<char>,
    pub woff2_input_path: Option<Seq<char>>,
    pub woff_input_path: Option<Seq<char>>,
    pub ttf_input_path: Option<Seq<char>>,
    pub output_base_url: Option<Seq<char>>,
}

impl ParamsView {
    /// The path held for format `f`.
    pub open spec fn path_for(&self, f: FontFormat) -> Option<Seq<char>> {
        match f {
            FontFormat::Woff2 => self.woff2_input_path,
            FontFormat::Woff => self.woff_input_path,
            FontFormat::Ttf => self.ttf_input_path,
        }
    }

    /// At least one font file is held, and each one held has its slot's
    /// extension.
    pub open spec fn wf(&self) -> bool {
        &&& (self.woff2_input_path is Some || self.woff_input_path is Some
            || self.ttf_input_path is Some)
        &&& forall|f: FontFormat| #[trigger] self.path_for(f) is Some ==> classify_spec(
            self.path_for(f)->0,
        ) == Some(f)
    }
}

impl View for FontFaceParameters {
    type V = ParamsView;

    open spec fn view(&self) -> ParamsView {
        ParamsView {
            font_family: self.font_family@,
            font_weight: self.font_weight,
            text: self.text@,
            woff2_input_path: opt_view(self.woff2_input_path),
            woff_input_path: opt_view(self.woff_input_path),
            ttf_input_path: opt_view(self.ttf_input_path),
            output_base_url: opt_view(self.output_base_url),
        }
    }
}

/// The parameters that `FontFaceParameters::new` collects from its arguments.
pub open spec fn params_from(
    font_family: Seq<char>,
    font_weight: u32,
    text: Seq<char>,
    font_file_paths: Seq<String>,
    output_base_url: Option<Seq<char>>,
) -> ParamsView {
    ParamsView {
        font_family,
        font_weight,
        text,
        woff2_input_path: last_with_format(font_file_paths, FontFormat::Woff2),
        woff_input_path: last_with_format(font_file_paths, FontFormat::Woff),
        ttf_input_path: last_with_format(font_file_paths, FontFormat::Ttf),
        output_base_url,
    }
}

impl FontFaceParameters {
    /// Collects the parameters of a declaration. Each path goes to the slot of
    /// its extension, a later one replacing an earlier one; paths of other
    /// extensions are skipped. Fails where no path has a font extension.
    pub fn new(
        font_family: &str,
        font_weight: u32,
        text: &str,
        font_file_paths: &[String],
        output_base_url: Option<&str>,
    ) -> (r: Result<Self, SubsetError>)
        ensures
            r is Err <==> no_font_files(font_file_paths@),
            r is Err ==> r == Err::<Self, SubsetError>(SubsetError::InvalidParameters),
            r is Ok ==> r->Ok_0@.wf() && r->Ok_0@ == params_from(
                font_family@,
                font_weight,
                text@,
                font_file_paths@,
                opt_str_view(output_base_url),
            ),
    {
        let mut woff2: Option<String> = None;
        let mut woff: Option<String> = None;
        let mut ttf: Option<String> = None;
        let ghost ps = font_file_paths@;
        let mut i: usize = 0;
        while i < font_file_paths.len()
            invariant
                ps == font_file_paths@,
                i <= ps.len(),
                opt_view(woff2) == last_with_format(ps.subrange(0, i as int), FontFormat::Woff2),
                opt_view(woff) == last_with_format(ps.subrange(0, i as int), FontFormat::Woff),
                opt_view(ttf) == last_with_format(ps.subrange(0, i as int), FontFormat::Ttf),
                woff2 is Some ==> classify_spec(woff2->0@) == Some(FontFormat::Woff2),
                woff is Some ==> classify_spec(woff->0@) == Some(FontFormat::Woff),
                ttf is Some ==> classify_spec(ttf->0@) == Some(FontFormat::Ttf),
                (woff2 is None && woff is None && ttf is None) <==> no_font_files(
                    ps.subrange(0, i as int),
                ),
            decreases ps.len() - i,
        {
            let path = &font_file_paths[i];
            let ghost sub = ps.subrange(0, i + 1);
            assert(sub.drop_last() =~= ps.subrange(0, i as int));
            assert(sub.last() == ps[i as int]);
            match classify(path.as_str()) {
                Some(FontFormat::Woff2) => {
                    woff2 = Some(path.clone());
                },
                Some(FontFormat::Woff) => {
                    woff = Some(path.clone());
                },
                Some(FontFormat::Ttf) => {
                    ttf = Some(path.clone());
                },
                None => {},
            }
            proof {
                if no_font_files(sub) {
                    assert(no_font_files(ps.subrange(0, i as int))) by {
                        assert forall|k: int| 0 <= k < i implies classify_spec(
                            (#[trigger] ps.subrange(0, i as int)[k])@,
                        ) is None by {
                            assert(sub[k] == ps.subrange(0, i as int)[k]);
                        }
                    }
                    assert(classify_spec(sub[i as int]@) is None);
                }
                if no_font_files(ps.subrange(0, i as int)) && classify_spec(ps[i as int]@) is None {
                    assert forall|k: int| 0 <= k < sub.len() implies classify_spec(
                        (#[trigger] sub[k])@,
                    ) is None by {
                        if k < i {
                            assert(sub[k] == ps.subrange(0, i as int)[k]);
                        }
                    }
                }
            }
            i = i + 1;
        }
        assert(ps.subrange(0, ps.len() as int) =~= ps);
        if woff2.is_none() && woff.is_none() && ttf.is_none() {
            return Err(SubsetError::InvalidParameters);
        }
        let base = match output_base_url {
            Some(u) => Some(String::from_str(u)),
            None => None,
        };
        Ok(FontFaceParameters {
            font_family: String::from_str(font_family),
            font_weight,
            text: String::from_str(text),
            woff2_input_path: woff2,
            woff_input_path: woff,
            ttf_input_path: ttf,
            output_base_url: base,
        })
    }
}

/// Loaded font file contents, one slot per format.
pub struct FontBytes {
    pub woff2: Option<Vec<u8>>,
    pub woff: Option<Vec<u8>>,
    pub ttf: Option<Vec<u8>>,
}

impl FontBytes {
    /// The contents held for format `f`.
    pub open spec fn bytes_for(&self, f: FontFormat) -> Option<Seq<u8>> {
        let o = match f {
            FontFormat::Woff2 => self.woff2,
            FontFormat::Woff => self.woff,
            FontFormat::Ttf => self.ttf,
        };
        match o {
            Some(v) => Some(v@),
            None => None,
        }
    }

    /// Every held content is small enough to encode.
    pub open spec fn fits(&self) -> bool {
        forall|f: FontFormat| #[trigger] self.bytes_for(f) is Some ==> self.bytes_for(f)->0.len()
            <= usize::MAX / 2
    }
}

/// An entry is referenced by URL only where a base URL applies to it and it is
/// not the first entry of the list; otherwise it is inlined.
pub open spec fn uses_url(base_url: Option<Seq<char>>, is_first_entry: bool) -> bool {
    base_url is Some && !is_first_entry
}

/// `url('<base><stem>.<tag>') format('<tag>')`.
pub open spec fn url_entry(base_url: Seq<char>, stem: Seq<char>, f: FontFormat) -> Seq<char> {
    "url('"@ + base_url + stem + "."@ + format_tag(f) + "') format('"@ + format_tag(f) + "')"@
}

/// `url('data:font/<tag>;base64, <data>') format('<tag>')`.
pub open spec fn inline_entry(encoded: Seq<char>, f: FontFormat) -> Seq<char> {
    "url('data:font/"@ + format_tag(f) + ";base64, "@ + encoded + "') format('"@ + format_tag(f)
        + "')"@
}

/// The text of one source entry, or none where it is to be inlined and its
/// contents are missing.
pub open spec fn entry_outcome(
    f: FontFormat,
    path: Seq<char>,
    base_url: Option<Seq<char>>,
    is_first_entry: bool,
    bytes: Option<Seq<u8>>,
) -> Option<Seq<char>> {
    if uses_url(base_url, is_first_entry) {
        Some(url_entry(base_url->0, file_stem_of(path)->0, f))
    } else {
        match bytes {
            Some(b) => Some(inline_entry(base64_of(b), f)),
            None => None,
        }
    }
}

/// The entry that references a file under `base_url` by its stem.
pub fn url_src(format: FontFormat, base_url: &str, stem: &str) -> (r: String)
    ensures
        r@ == url_entry(base_url@, stem@, format),
{
    let tag = format.tag();
    let mut out = String::new();
    out.append("url('");
    out.append(base_url);
    out.append(stem);
    out.append(".");
    out.append(tag);
    out.append("') format('");
    out.append(tag);
    out.append("')");
    assert(out@ =~= url_entry(base_url@, stem@, format));
    out
}

/// The entry that inlines a file whose base64 text is `encoded`.
pub fn inline_src(format: FontFormat, encoded: &str) -> (r: String)
    ensures
        r@ == inline_entry(encoded@, format),
{
    let tag = format.tag();
    let mut out = String::new();
    out.append("url('data:font/");
    out.append(tag);
    out.append(";base64, ");
    out.append(encoded);
    out.append("') format('");
    out.append(tag);
    out.append("')");
    assert(out@ =~= inline_entry(encoded@, format));
    out
}

/// `r` is the error naming `path` as unreadable.
pub open spec fn is_unreadable_error(r: SubsetError, path: Seq<char>) -> bool {
    match r {
        SubsetError::FileUnreadable(p) => p@ == path,
        _ => false,
    }
}

/// One entry of a `src` list: a URL under `base_url` where `uses_url` holds,
/// else the inlined base64 of `bytes`, which must then be present.
pub fn font_src(
    format: FontFormat,
    path: &str,
    base_url: Option<&str>,
    is_first_entry: bool,
    bytes: Option<&Vec<u8>>,
) -> (r: Result<String, SubsetError>)
    requires
        classify_spec(path@) == Some(format),
        bytes is Some ==> bytes->0@.len() <= usize::MAX / 2,
    ensures
        match entry_outcome(
            format,
            path@,
            opt_str_view(base_url),
            is_first_entry,
            match bytes {
                Some(b) => Some(b@),
                None => None,
            },
        ) {
            Some(t) => r is Ok && r->Ok_0@ == t,
            None => r is Err && is_unreadable_error(r->Err_0, path@),
        },
{
    if base_url.is_some() && !is_first_entry {
        let stem = file_stem(path).unwrap();
        Ok(url_src(format, base_url.unwrap(), stem.as_str()))
    } else {
        match bytes {
            None => Err(SubsetError::FileUnreadable(String::from_str(path))),
            Some(b) => {
                let encoded = encode_base64(b);
                Ok(inline_src(format, encoded.as_str()))
            },
        }
    }
}

/// The family name as emitted: with the `__subset` suffix, and in double
/// quotes where it holds a space.
pub open spec fn family_value(family: Seq<char>) -> Seq<char> {
    if family.contains(' ') {
        "\""@ + family + "__subset\""@
    } else {
        family + "__subset"@
    }
}

fn has_space(s: &str) -> (r: bool)
    ensures
        r == s@.contains(' '),
{
    let n = s.unicode_len();
    let mut i: usize = 0;
    while i < n
        invariant
            n == s@.len(),
            i <= n,
            forall|k: int| 0 <= k < i ==> s@[k] != ' ',
        decreases n - i,
    {
        if s.get_char(i) == ' ' {
            return true;
        }
        i = i + 1;
    }
    false
}

/// The family name as emitted in the declaration.
pub fn font_family_value(font_family: &str) -> (r: String)
    ensures
        r@ == family_value(font_family@),
{
    let mut out = String::new();
    if has_space(font_family) {
        out.append("\"");
        out.append(font_family);
        out.append("__subset\"");
    } else {
        out.append(font_family);
        out.append("__subset");
    }
    assert(out@ =~= family_value(font_family@));
    out
}

/// The base URL that applies to format `f`: none for woff2, which is always
/// inlined.
pub open spec fn base_url_for(p: ParamsView, f: FontFormat) -> Option<Seq<char>> {
    match f {
        FontFormat::Woff2 => None,
        _ => p.output_base_url,
    }
}

/// Some format ahead of `f` in the order woff2, woff, ttf has a file.
pub open spec fn present_before(p: ParamsView, f: FontFormat) -> bool {
    match f {
        FontFormat::Woff2 => false,
        FontFormat::Woff => p.woff2_input_path is Some,
        FontFormat::Ttf => p.woff2_input_path is Some || p.woff_input_path is Some,
    }
}

/// The file of format `f` is inlined in the declaration.
pub open spec fn inlined(p: ParamsView, f: FontFormat) -> bool {
    p.path_for(f) is Some && !uses_url(base_url_for(p, f), !present_before(p, f))
}

/// What the entry of format `f` comes to, for a held file.
pub open spec fn slot_outcome(p: ParamsView, d: FontBytes, f: FontFormat) -> Option<
    Seq<char>,
> {
    entry_outcome(f, p.path_for(f)->0, base_url_for(p, f), !present_before(p, f), d.bytes_for(f))
}

/// The file of format `f` is to be inlined and its contents are missing.
pub open spec fn unreadable(p: ParamsView, d: FontBytes, f: FontFormat) -> bool {
    p.path_for(f) is Some && slot_outcome(p, d, f) is None
}

/// The first format, in the order woff2, woff, ttf, whose file is unreadable.
pub open spec fn first_unreadable(p: ParamsView, d: FontBytes) -> Option<FontFormat> {
    if unreadable(p, d, FontFormat::Woff2) {
        Some(FontFormat::Woff2)
    } else if unreadable(p, d, FontFormat::Woff) {
        Some(FontFormat::Woff)
    } else if unreadable(p, d, FontFormat::Ttf) {
        Some(FontFormat::Ttf)
    } else {
        None
    }
}

/// The entry of format `f` as a list: empty where no file of it is held.
pub open spec fn slot_entries(p: ParamsView, d: FontBytes, f: FontFormat) -> Seq<
    Seq<char>,
> {
    if p.path_for(f) is Some {
        seq![slot_outcome(p, d, f)->0]
    } else {
        seq![]
    }
}

/// The `src` entries in the order woff2, woff, ttf.
pub open spec fn src_entries(p: ParamsView, d: FontBytes) -> Seq<Seq<char>> {
    slot_entries(p, d, FontFormat::Woff2) + slot_entries(p, d, FontFormat::Woff) + slot_entries(
        p,
        d,
        FontFormat::Ttf,
    )
}

/// The `font-family` line of the block.
pub open spec fn family_line(family: Seq<char>) -> Seq<char> {
    "    font-family: "@ + family_value(family) + ";"@
}

/// The `font-weight` line of the block.
pub open spec fn weight_line(weight: u32) -> Seq<char> {
    "    font-weight: "@ + dec_text(weight as nat) + ";"@
}

/// The `src` part of the block: the key, then the entries on lines of their
/// own.
pub open spec fn src_block(p: ParamsView, d: FontBytes) -> Seq<char> {
    "    src:\n        "@ + joined(src_entries(p, d), ",\n        "@) + ";"@
}

/// The `unicode-range` line of the block.
pub open spec fn range_line(text: Seq<char>) -> Seq<char> {
    "    unicode-range: "@ + unicode_range_text(text) + ";"@
}

/// The full `@font-face` block.
pub open spec fn declaration(p: ParamsView, d: FontBytes) -> Seq<char> {
    "@font-face {\n    font-display: swap;\n"@ + family_line(p.font_family)
        + "\n    font-stretch: normal;\n    font-style: normal;\n"@ + weight_line(p.font_weight)
        + "\n"@ + src_block(p, d) + "\n"@ + range_line(p.text) + "\n  }"@
}

/// `seg` stands somewhere in `s`.
pub open spec fn has_segment(s: Seq<char>, seg: Seq<char>) -> bool {
    exists|i: int| 0 <= i && i + seg.len() <= s.len() && #[trigger] s.subrange(i, i + seg.len()) == seg
}

proof fn lemma_middle_segment(a: Seq<char>, b: Seq<char>, c: Seq<char>)
    ensures
        has_segment(a + b + c, b),
{
    let s = a + b + c;
    assert(s.subrange(a.len() as int, (a.len() + b.len()) as int) =~= b);
}

/// The block holds its `font-family`, `font-weight`, `src` and
/// `unicode-range` lines.
pub proof fn lemma_declaration_key_lines(p: ParamsView, d: FontBytes)
    ensures
        has_segment(declaration(p, d), family_line(p.font_family)),
        has_segment(declaration(p, d), weight_line(p.font_weight)),
        has_segment(declaration(p, d), src_block(p, d)),
        has_segment(declaration(p, d), range_line(p.text)),
{
    let h = "@font-face {\n    font-display: swap;\n"@;
    let fl = family_line(p.font_family);
    let m = "\n    font-stretch: normal;\n    font-style: normal;\n"@;
    let wl = weight_line(p.font_weight);
    let nl = "\n"@;
    let sb = src_block(p, d);
    let rl = range_line(p.text);
    let e = "\n  }"@;
    let decl = declaration(p, d);
    assert(decl =~= h + fl + (m + wl + nl + sb + nl + rl + e));
    lemma_middle_segment(h, fl, m + wl + nl + sb + nl + rl + e);
    assert(decl =~= (h + fl + m) + wl + (nl + sb + nl + rl + e));
    lemma_middle_segment(h + fl + m, wl, nl + sb + nl + rl + e);
    assert(decl =~= (h + fl + m + wl + nl) + sb + (nl + rl + e));
    lemma_middle_segment(h + fl + m + wl + nl, sb, nl + rl + e);
    assert(decl =~= (h + fl + m + wl + nl + sb + nl) + rl + e);
    lemma_middle_segment(h + fl + m + wl + nl + sb + nl, rl, e);
}

/// A family name with a space stands in the block in double quotes, with the
/// `__subset` suffix inside them.
pub proof fn lemma_family_quoted(p: ParamsView, d: FontBytes)
    requires
        p.font_family.contains(' '),
    ensures
        has_segment(declaration(p, d), "    font-family: \""@ + p.font_family + "__subset\";"@),
{
    lemma_declaration_key_lines(p, d);
    reveal_strlit("    font-family: ");
    reveal_strlit("\"");
    reveal_strlit("    font-family: \"");
    reveal_strlit("__subset\"");
    reveal_strlit(";");
    reveal_strlit("__subset\";");
    assert(family_line(p.font_family) =~= "    font-family: \""@ + p.font_family + "__subset\";"@);
}

/// A family name without a space stands in the block unquoted, with the
/// `__subset` suffix.
pub proof fn lemma_family_bare(p: ParamsView, d: FontBytes)
    requires
        !p.font_family.contains(' '),
    ensures
        has_segment(declaration(p, d), "    font-family: "@ + p.font_family + "__subset;"@),
{
    lemma_declaration_key_lines(p, d);
    reveal_strlit("__subset");
    reveal_strlit(";");
    reveal_strlit("__subset;");
    assert(family_line(p.font_family) =~= "    font-family: "@ + p.font_family + "__subset;"@);
}

/// Whether the file of `format` is inlined, and so has to be loaded.
pub fn is_inlined(params: &FontFaceParameters, format: FontFormat) -> (r: bool)
    ensures
        r == inlined(params@, format),
{
    let path = match format {
        FontFormat::Woff2 => &params.woff2_input_path,
        FontFormat::Woff => &params.woff_input_path,
        FontFormat::Ttf => &params.ttf_input_path,
    };
    if path.is_none() {
        return false;
    }
    match format {
        FontFormat::Woff2 => true,
        FontFormat::Woff => params.output_base_url.is_none() || params.woff2_input_path.is_none(),
        FontFormat::Ttf => params.output_base_url.is_none() || (params.woff2_input_path.is_none()
            && params.woff_input_path.is_none()),
    }
}

fn add_font_src(
    format: FontFormat,
    path: &Option<String>,
    base_url: Option<&str>,
    bytes: &Option<Vec<u8>>,
    src: &mut Vec<String>,
) -> (r: Result<(), SubsetError>)
    requires
        path is Some ==> classify_spec(path->0@) == Some(format),
        bytes is Some ==> bytes->0@.len() <= usize::MAX / 2,
    ensures
        path is None ==> r is Ok && final(src)@ == old(src)@,
        path is Some ==> match entry_outcome(
            format,
            path->0@,
            opt_str_view(base_url),
            old(src)@.len() == 0,
            match bytes {
                Some(b) => Some(b@),
                None => None,
            },
        ) {
            Some(t) => r is Ok && final(src)@.len() == old(src)@.len() + 1 && final(src)@.drop_last()
                == old(src)@ && final(src)@.last()@ == t,
            None => r is Err && is_unreadable_error(r->Err_0, path->0@),
        },
{
    match path {
        None => Ok(()),
        Some(p) => {
            let first = src.len() == 0;
            let b = match bytes {
                Some(v) => Some(v),
                None => None,
            };
            match font_src(format, p.as_str(), base_url, first, b) {
                Ok(e) => {
                    src.push(e);
                    assert(src@.drop_last() =~= old(src)@);
                    Ok(())
                },
                Err(err) => Err(err),
            }
        },
    }
}

fn join_entries(parts: &Vec<String>, sep: &str) -> (r: String)
    ensures
        r@ == joined(parts@.map_values(|s: String| s@), sep@),
{
    let ghost views = parts@.map_values(|s: String| s@);
    let mut out = String::new();
    let mut k: usize = 0;
    while k < parts.len()
        invariant
            k <= parts.len(),
            views == parts@.map_values(|s: String| s@),
            out@ == joined(views.subrange(0, k as int), sep@),
        decreases parts.len() - k,
    {
        assert(views.subrange(0, k + 1).drop_last() =~= views.subrange(0, k as int));
        if k > 0 {
            out.append(sep);
        }
        out.append(parts[k].as_str());
        k = k + 1;
    }
    assert(views.subrange(0, k as int) =~= views);
    out
}

/// Builds the `@font-face` block: the family name, the weight, the `src` list
/// in the order woff2, woff, ttf and the `unicode-range` of the text. The woff2
/// file is always inlined; a woff or ttf file is referenced under the base URL
/// unless no base URL is set or no entry precedes it, in which case it is
/// inlined. Fails on a text without characters, and otherwise on the first
/// inlined file whose contents are missing.
pub fn font_face(params: &FontFaceParameters, fonts: &FontBytes) -> (r: Result<
    String,
    SubsetError,
>)
    requires
        params@.wf(),
        fonts.fits(),
    ensures
        params@.text.len() == 0 ==> r == Err::<String, SubsetError>(
            SubsetError::EmptyCharacterSet,
        ),
        params@.text.len() > 0 ==> match first_unreadable(params@, *fonts) {
            Some(f) => r is Err && is_unreadable_error(r->Err_0, params@.path_for(f)->0),
            None => r is Ok && r->Ok_0@ == declaration(params@, *fonts),
        },
{
    let base = match &params.output_base_url {
        Some(u) => Some(u.as_str()),
        None => None,
    };
    let range = unicodes(params.text.as_str());
    if range.is_err() {
        return Err(SubsetError::EmptyCharacterSet);
    }
    let range = range.unwrap();
    let mut src: Vec<String> = Vec::new();
    let res = add_font_src(FontFormat::Woff2, &params.woff2_input_path, None, &fonts.woff2, &mut src);
    if res.is_err() {
        return Err(res.unwrap_err());
    }
    let ghost src1 = src@;
    let res = add_font_src(FontFormat::Woff, &params.woff_input_path, base, &fonts.woff, &mut src);
    if res.is_err() {
        return Err(res.unwrap_err());
    }
    let ghost src2 = src@;
    let res = add_font_src(FontFormat::Ttf, &params.ttf_input_path, base, &fonts.ttf, &mut src);
    if res.is_err() {
        return Err(res.unwrap_err());
    }
    assert(src@.map_values(|s: String| s@) =~= src_entries(params@, *fonts));
    let src_text = join_entries(&src, ",\n        ");
    let family = font_family_value(params.font_family.as_str());
    let mut out = String::new();
    out.append("@font-face {\n    font-display: swap;\n");
    out.append("    font-family: ");
    out.append(family.as_str());
    out.append(";");
    out.append("\n    font-stretch: normal;\n    font-style: normal;\n");
    out.append("    font-weight: ");
    push_dec(&mut out, params.font_weight);
    out.append(";");
    out.append("\n");
    out.append("    src:\n        ");
    out.append(src_text.as_str());
    out.append(";");
    out.append("\n");
    out.append("    unicode-range: ");
    out.append(range.as_str());
    out.append(";");
    out.append("\n  }");
    assert(out@ =~= declaration(params@, *fonts));
    Ok(out)
}

/// The `@font-face` block for `text` and the given font files: the files are
/// sorted into slots by extension as `FontFaceParameters::new` does, and the
/// block is built by `font_face` from the loaded contents in `fonts`. Fails
/// where no path has a font extension, then as `font_face` does: on a text
/// without characters, then on a missing inlined file.
pub fn compute_font_face(
    font_family: &str,
    font_weight: u32,
    text: &str,
    font_file_paths: &[String],
    output_base_url: Option<&str>,
    fonts: &FontBytes,
) -> (r: Result<String, SubsetError>)
    requires
        fonts.fits(),
    ensures
        no_font_files(font_file_paths@) ==> r == Err::<String, SubsetError>(
            SubsetError::InvalidParameters,
        ),
        !no_font_files(font_file_paths@) ==> ({
            let p = params_from(
                font_family@,
                font_weight,
                text@,
                font_file_paths@,
                opt_str_view(output_base_url),
            );
            if text@.len() == 0 {
                r == Err::<String, SubsetError>(SubsetError::EmptyCharacterSet)
            } else {
                match first_unreadable(p, *fonts) {
                    Some(f) => r is Err && is_unreadable_error(r->Err_0, p.path_for(f)->0),
                    None => r is Ok && r->Ok_0@ == declaration(p, *fonts),
                }
            }
        }),
{
    match FontFaceParameters::new(font_family, font_weight, text, font_file_paths, output_base_url) {
        Err(e) => Err(e),
        Ok(params) => font_face(&params, fonts),
    }
}

/// How many font files the parameters hold.
pub open spec fn present_count(p: ParamsView) -> nat {
    (if p.woff2_input_path is Some { 1nat } else { 0nat }) + (if p.woff_input_path is Some {
        1nat
    } else {
        0nat
    }) + (if p.ttf_input_path is Some { 1nat } else { 0nat })
}

/// The `src` list holds exactly one entry per font file held, so between one
/// and three.
pub proof fn lemma_src_entry_count(p: ParamsView, d: FontBytes)
    requires
        p.wf(),
    ensures
        src_entries(p, d).len() == present_count(p),
        1 <= present_count(p) <= 3,
{
}

/// The first entry of the `src` list is always inlined, whatever base URL is
/// set: a lone woff or ttf file is inlined too.
pub proof fn lemma_first_entry_inlined(p: ParamsView, f: FontFormat)
    requires
        p.path_for(f) is Some,
        !present_before(p, f),
    ensures
        inlined(p, f),
{
}

/// The woff2 file, where held, is always inlined.
pub proof fn lemma_woff2_inlined(p: ParamsView)
    requires
        p.woff2_input_path is Some,
    ensures
        inlined(p, FontFormat::Woff2),
{
}

} // verus!
