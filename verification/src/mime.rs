//! Media types: by file name, and which of them are compressed already.
use crate::text::{
    chars_of, chars_split, chars_strip_prefix, chars_trim, law_joining_undoes_split,
    law_strip_prefix, law_trim, lemma_split_around, lemma_unsplit, lower, split, starts_with,
    str_eq, text_of, to_lower, trim, views,
};
use vstd::prelude::*;

verus! {

broadcast use vstd::seq::group_seq_axioms;

/// The media type of files with this extension.
pub open spec fn type_of(ext: Seq<char>) -> Seq<char> {
    if ext == "html"@ || ext == "htm"@ {
        "text/html; charset=utf-8"@
    } else if ext == "css"@ {
        "text/css; charset=utf-8"@
    } else if ext == "js"@ || ext == "mjs"@ {
        "text/javascript; charset=utf-8"@
    } else if ext == "json"@ {
        "application/json"@
    } else if ext == "txt"@ {
        "text/plain; charset=utf-8"@
    } else if ext == "csv"@ {
        "text/csv; charset=utf-8"@
    } else if ext == "xml"@ {
        "application/xml"@
    } else if ext == "svg"@ {
        "image/svg+xml"@
    } else if ext == "png"@ {
        "image/png"@
    } else if ext == "jpg"@ || ext == "jpeg"@ {
        "image/jpeg"@
    } else if ext == "gif"@ {
        "image/gif"@
    } else if ext == "webp"@ {
        "image/webp"@
    } else if ext == "avif"@ {
        "image/avif"@
    } else if ext == "ico"@ {
        "image/x-icon"@
    } else if ext == "woff"@ {
        "font/woff"@
    } else if ext == "woff2"@ {
        "font/woff2"@
    } else if ext == "ttf"@ {
        "font/ttf"@
    } else if ext == "otf"@ {
        "font/otf"@
    } else if ext == "wasm"@ {
        "application/wasm"@
    } else if ext == "pdf"@ {
        "application/pdf"@
    } else if ext == "zip"@ {
        "application/zip"@
    } else if ext == "gz"@ {
        "application/gzip"@
    } else if ext == "mp3"@ {
        "audio/mpeg"@
    } else if ext == "ogg"@ {
        "audio/ogg"@
    } else if ext == "wav"@ {
        "audio/wav"@
    } else if ext == "mp4"@ {
        "video/mp4"@
    } else if ext == "webm"@ {
        "video/webm"@
    } else {
        "application/octet-stream"@
    }
}

/// The extension of a path's last component: what follows its last dot, in lower
/// case; nothing if there is no dot in it.
pub open spec fn extension_of(path: Seq<char>) -> Seq<char> {
    let name = split(path, '/').last();
    let parts = split(name, '.');
    if parts.len() < 2 {
        Seq::empty()
    } else {
        lower(parts.last())
    }
}

proof fn lemma_split_nonempty(s: Seq<char>, sep: char)
    ensures
        split(s, sep).len() > 0,
{
}

fn extension(path: &str) -> (r: String)
    ensures
        r@ == extension_of(path@),
{
    let c = chars_of(path);
    let comps = chars_split(c.as_slice(), '/');
    proof {
        lemma_split_nonempty(path@, '/');
        assert(views(comps@).last() == comps@.last()@);
    }
    let name = comps[comps.len() - 1];
    let parts = chars_split(name, '.');
    if parts.len() < 2 {
        let r: String = String::new();
        proof {
            assert(r@ =~= Seq::empty());
        }
        return r;
    }
    proof {
        assert(views(parts@).last() == parts@.last()@);
    }
    to_lower(text_of(parts[parts.len() - 1]).as_str())
}

/// The media type to serve a file with, by its extension.
pub fn from_path(path: &str) -> (r: &'static str)
    ensures
        r@ == type_of(extension_of(path@)),
{
    let ext = extension(path);
    let e = ext.as_str();
    if str_eq(e, "html") || str_eq(e, "htm") {
        "text/html; charset=utf-8"
    } else if str_eq(e, "css") {
        "text/css; charset=utf-8"
    } else if str_eq(e, "js") || str_eq(e, "mjs") {
        "text/javascript; charset=utf-8"
    } else if str_eq(e, "json") {
        "application/json"
    } else if str_eq(e, "txt") {
        "text/plain; charset=utf-8"
    } else if str_eq(e, "csv") {
        "text/csv; charset=utf-8"
    } else if str_eq(e, "xml") {
        "application/xml"
    } else if str_eq(e, "svg") {
        "image/svg+xml"
    } else if str_eq(e, "png") {
        "image/png"
    } else if str_eq(e, "jpg") || str_eq(e, "jpeg") {
        "image/jpeg"
    } else if str_eq(e, "gif") {
        "image/gif"
    } else if str_eq(e, "webp") {
        "image/webp"
    } else if str_eq(e, "avif") {
        "image/avif"
    } else if str_eq(e, "ico") {
        "image/x-icon"
    } else if str_eq(e, "woff") {
        "font/woff"
    } else if str_eq(e, "woff2") {
        "font/woff2"
    } else if str_eq(e, "ttf") {
        "font/ttf"
    } else if str_eq(e, "otf") {
        "font/otf"
    } else if str_eq(e, "wasm") {
        "application/wasm"
    } else if str_eq(e, "pdf") {
        "application/pdf"
    } else if str_eq(e, "zip") {
        "application/zip"
    } else if str_eq(e, "gz") {
        "application/gzip"
    } else if str_eq(e, "mp3") {
        "audio/mpeg"
    } else if str_eq(e, "ogg") {
        "audio/ogg"
    } else if str_eq(e, "wav") {
        "audio/wav"
    } else if str_eq(e, "mp4") {
        "video/mp4"
    } else if str_eq(e, "webm") {
        "video/webm"
    } else {
        "application/octet-stream"
    }
}

/// A media type without its parameters, in lower case.
pub open spec fn essence(content_type: Seq<char>) -> Seq<char> {
    lower(trim(split(content_type, ';')[0]))
}

/// Media types whose content is compressed already.
pub open spec fn compressed_type(t: Seq<char>) -> bool {
    ||| starts_with(t, "image/"@) && t != "image/svg+xml"@
    ||| starts_with(t, "video/"@)
    ||| starts_with(t, "audio/"@)
    ||| t == "application/zip"@
    ||| t == "application/gzip"@
    ||| t == "application/x-gzip"@
    ||| t == "application/x-7z-compressed"@
    ||| t == "application/x-bzip2"@
    ||| t == "application/x-xz"@
    ||| t == "application/zstd"@
    ||| t == "font/woff"@
    ||| t == "font/woff2"@
}

fn begins_with(s: &str, p: &str) -> (r: bool)
    ensures
        r == starts_with(s@, p@),
{
    let c = chars_of(s);
    chars_strip_prefix(c.as_slice(), p).is_some()
}

/// Whether content of this type is compressed already, so that compressing it
/// again is not worth it.
pub fn is_precompressed(content_type: &str) -> (r: bool)
    ensures
        r == compressed_type(essence(content_type@)),
{
    let c = chars_of(content_type);
    let parts = chars_split(c.as_slice(), ';');
    proof {
        lemma_split_nonempty(content_type@, ';');
        assert(views(parts@)[0] == parts@[0]@);
    }
    let essence = to_lower(text_of(chars_trim(parts[0])).as_str());
    let t = essence.as_str();
    (begins_with(t, "image/") && !str_eq(t, "image/svg+xml")) || begins_with(t, "video/") || begins_with(
        t,
        "audio/",
    ) || str_eq(t, "application/zip") || str_eq(t, "application/gzip") || str_eq(t, "application/x-gzip") || str_eq(t, "application/x-7z-compressed") || str_eq(t, "application/x-bzip2") || str_eq(t, "application/x-xz") || str_eq(t, "application/zstd") || str_eq(t, "font/woff") || str_eq(t, "font/woff2")
}

/// The extension of a path is what follows the last dot of its last component, in
/// lower case; without a dot there it has none.
pub proof fn law_extension(dir: Seq<char>, stem: Seq<char>, ext: Seq<char>)
    requires
        !stem.contains('/'),
        !ext.contains('/'),
        !ext.contains('.'),
    ensures
        extension_of(dir + seq!['/'] + stem + seq!['.'] + ext) == lower(ext),
        extension_of(stem + seq!['.'] + ext) == lower(ext),
        !stem.contains('.') ==> extension_of(dir + seq!['/'] + stem) == Seq::<char>::empty(),
{
    let name = stem + seq!['.'] + ext;
    assert forall|i: int| 0 <= i < name.len() implies name[i] != '/' by {
        if i < stem.len() {
            assert(stem.contains(stem[i]));
        } else if i > stem.len() {
            assert(name[i] == ext[i - stem.len() - 1]);
            assert(ext.contains(ext[i - stem.len() - 1]));
        }
    }
    lemma_unsplit(name, '/');
    lemma_unsplit(stem, '/');
    lemma_unsplit(ext, '.');
    lemma_split_around(stem, ext, '.');
    assert(dir + seq!['/'] + stem + seq!['.'] + ext =~= dir + seq!['/'] + name);
    lemma_split_around(dir, name, '/');
    lemma_split_around(dir, stem, '/');
    let p = split(name, '.');
    law_joining_undoes_split(stem, '.');
    assert(p.last() == ext);
    assert(split(dir + seq!['/'] + name, '/').last() == name);
    assert(split(dir + seq!['/'] + stem, '/').last() == stem);
    if !stem.contains('.') {
        lemma_unsplit(stem, '.');
    }
}

/// The types of the common extensions.
pub open spec fn known_types() -> Seq<(Seq<char>, Seq<char>)> {
    seq![
        ("html"@, "text/html; charset=utf-8"@),
        ("htm"@, "text/html; charset=utf-8"@),
        ("css"@, "text/css; charset=utf-8"@),
        ("js"@, "text/javascript; charset=utf-8"@),
        ("mjs"@, "text/javascript; charset=utf-8"@),
        ("json"@, "application/json"@),
        ("txt"@, "text/plain; charset=utf-8"@),
        ("csv"@, "text/csv; charset=utf-8"@),
        ("xml"@, "application/xml"@),
        ("svg"@, "image/svg+xml"@),
        ("png"@, "image/png"@),
        ("jpg"@, "image/jpeg"@),
        ("jpeg"@, "image/jpeg"@),
        ("gif"@, "image/gif"@),
        ("webp"@, "image/webp"@),
        ("avif"@, "image/avif"@),
        ("ico"@, "image/x-icon"@),
        ("woff"@, "font/woff"@),
        ("woff2"@, "font/woff2"@),
        ("ttf"@, "font/ttf"@),
        ("otf"@, "font/otf"@),
        ("wasm"@, "application/wasm"@),
        ("pdf"@, "application/pdf"@),
        ("zip"@, "application/zip"@),
        ("gz"@, "application/gzip"@),
        ("mp3"@, "audio/mpeg"@),
        ("ogg"@, "audio/ogg"@),
        ("wav"@, "audio/wav"@),
        ("mp4"@, "video/mp4"@),
        ("webm"@, "video/webm"@),
    ]
}

/// A known extension has its type, and any other is served as plain bytes.
#[verifier::rlimit(60)]
pub proof fn law_types(ext: Seq<char>, i: int)
    ensures
        0 <= i < known_types().len() ==> type_of(known_types()[i].0) == known_types()[i].1,
        (forall|k: int| 0 <= k < known_types().len() ==> (#[trigger] known_types()[k]).0 != ext)
            ==> type_of(ext) == "application/octet-stream"@,
{
    reveal_strlit("html");
    reveal_strlit("htm");
    reveal_strlit("css");
    reveal_strlit("js");
    reveal_strlit("mjs");
    reveal_strlit("json");
    reveal_strlit("txt");
    reveal_strlit("csv");
    reveal_strlit("xml");
    reveal_strlit("svg");
    reveal_strlit("png");
    reveal_strlit("jpg");
    reveal_strlit("jpeg");
    reveal_strlit("gif");
    reveal_strlit("webp");
    reveal_strlit("avif");
    reveal_strlit("ico");
    reveal_strlit("woff");
    reveal_strlit("woff2");
    reveal_strlit("ttf");
    reveal_strlit("otf");
    reveal_strlit("wasm");
    reveal_strlit("pdf");
    reveal_strlit("zip");
    reveal_strlit("gz");
    reveal_strlit("mp3");
    reveal_strlit("ogg");
    reveal_strlit("wav");
    reveal_strlit("mp4");
    reveal_strlit("webm");
    assert("html"@[0] == 'h' && "html"@[1] == 't' && "html"@[2] == 'm' && "html"@[3] == 'l');
    assert("htm"@[0] == 'h' && "htm"@[1] == 't' && "htm"@[2] == 'm');
    assert("css"@[0] == 'c' && "css"@[1] == 's' && "css"@[2] == 's');
    assert("js"@[0] == 'j' && "js"@[1] == 's');
    assert("mjs"@[0] == 'm' && "mjs"@[1] == 'j' && "mjs"@[2] == 's');
    assert("json"@[0] == 'j' && "json"@[1] == 's' && "json"@[2] == 'o' && "json"@[3] == 'n');
    assert("txt"@[0] == 't' && "txt"@[1] == 'x' && "txt"@[2] == 't');
    assert("csv"@[0] == 'c' && "csv"@[1] == 's' && "csv"@[2] == 'v');
    assert("xml"@[0] == 'x' && "xml"@[1] == 'm' && "xml"@[2] == 'l');
    assert("svg"@[0] == 's' && "svg"@[1] == 'v' && "svg"@[2] == 'g');
    assert("png"@[0] == 'p' && "png"@[1] == 'n' && "png"@[2] == 'g');
    assert("jpg"@[0] == 'j' && "jpg"@[1] == 'p' && "jpg"@[2] == 'g');
    assert("jpeg"@[0] == 'j' && "jpeg"@[1] == 'p' && "jpeg"@[2] == 'e' && "jpeg"@[3] == 'g');
    assert("gif"@[0] == 'g' && "gif"@[1] == 'i' && "gif"@[2] == 'f');
    assert("webp"@[0] == 'w' && "webp"@[1] == 'e' && "webp"@[2] == 'b' && "webp"@[3] == 'p');
    assert("avif"@[0] == 'a' && "avif"@[1] == 'v' && "avif"@[2] == 'i' && "avif"@[3] == 'f');
    assert("ico"@[0] == 'i' && "ico"@[1] == 'c' && "ico"@[2] == 'o');
    assert("woff"@[0] == 'w' && "woff"@[1] == 'o' && "woff"@[2] == 'f' && "woff"@[3] == 'f');
    assert("woff2"@[0] == 'w' && "woff2"@[1] == 'o' && "woff2"@[2] == 'f' && "woff2"@[3] == 'f' && "woff2"@[4] == '2');
    assert("ttf"@[0] == 't' && "ttf"@[1] == 't' && "ttf"@[2] == 'f');
    assert("otf"@[0] == 'o' && "otf"@[1] == 't' && "otf"@[2] == 'f');
    assert("wasm"@[0] == 'w' && "wasm"@[1] == 'a' && "wasm"@[2] == 's' && "wasm"@[3] == 'm');
    assert("pdf"@[0] == 'p' && "pdf"@[1] == 'd' && "pdf"@[2] == 'f');
    assert("zip"@[0] == 'z' && "zip"@[1] == 'i' && "zip"@[2] == 'p');
    assert("gz"@[0] == 'g' && "gz"@[1] == 'z');
    assert("mp3"@[0] == 'm' && "mp3"@[1] == 'p' && "mp3"@[2] == '3');
    assert("ogg"@[0] == 'o' && "ogg"@[1] == 'g' && "ogg"@[2] == 'g');
    assert("wav"@[0] == 'w' && "wav"@[1] == 'a' && "wav"@[2] == 'v');
    assert("mp4"@[0] == 'm' && "mp4"@[1] == 'p' && "mp4"@[2] == '4');
    assert("webm"@[0] == 'w' && "webm"@[1] == 'e' && "webm"@[2] == 'b' && "webm"@[3] == 'm');
    assert("js"@.len() == 2 && "json"@.len() == 4 && "woff"@.len() == 4 && "woff2"@.len() == 5);
    let t = known_types();
    assert(t.len() == 30);
    if i == 0 {
        assert(t[i] == ("html"@, "text/html; charset=utf-8"@));
        assert(type_of("html"@) == "text/html; charset=utf-8"@);
    } else if i == 1 {
        assert(t[i] == ("htm"@, "text/html; charset=utf-8"@));
        assert(type_of("htm"@) == "text/html; charset=utf-8"@);
    } else if i == 2 {
        assert(t[i] == ("css"@, "text/css; charset=utf-8"@));
        assert(type_of("css"@) == "text/css; charset=utf-8"@);
    } else if i == 3 {
        assert(t[i] == ("js"@, "text/javascript; charset=utf-8"@));
        assert(type_of("js"@) == "text/javascript; charset=utf-8"@);
    } else if i == 4 {
        assert(t[i] == ("mjs"@, "text/javascript; charset=utf-8"@));
        assert(type_of("mjs"@) == "text/javascript; charset=utf-8"@);
    } else if i == 5 {
        assert(t[i] == ("json"@, "application/json"@));
        assert(type_of("json"@) == "application/json"@);
    } else if i == 6 {
        assert(t[i] == ("txt"@, "text/plain; charset=utf-8"@));
        assert(type_of("txt"@) == "text/plain; charset=utf-8"@);
    } else if i == 7 {
        assert(t[i] == ("csv"@, "text/csv; charset=utf-8"@));
        assert(type_of("csv"@) == "text/csv; charset=utf-8"@);
    } else if i == 8 {
        assert(t[i] == ("xml"@, "application/xml"@));
        assert(type_of("xml"@) == "application/xml"@);
    } else if i == 9 {
        assert(t[i] == ("svg"@, "image/svg+xml"@));
        assert(type_of("svg"@) == "image/svg+xml"@);
    } else if i == 10 {
        assert(t[i] == ("png"@, "image/png"@));
        assert(type_of("png"@) == "image/png"@);
    } else if i == 11 {
        assert(t[i] == ("jpg"@, "image/jpeg"@));
        assert(type_of("jpg"@) == "image/jpeg"@);
    } else if i == 12 {
        assert(t[i] == ("jpeg"@, "image/jpeg"@));
        assert(type_of("jpeg"@) == "image/jpeg"@);
    } else if i == 13 {
        assert(t[i] == ("gif"@, "image/gif"@));
        assert(type_of("gif"@) == "image/gif"@);
    } else if i == 14 {
        assert(t[i] == ("webp"@, "image/webp"@));
        assert(type_of("webp"@) == "image/webp"@);
    } else if i == 15 {
        assert(t[i] == ("avif"@, "image/avif"@));
        assert(type_of("avif"@) == "image/avif"@);
    } else if i == 16 {
        assert(t[i] == ("ico"@, "image/x-icon"@));
        assert(type_of("ico"@) == "image/x-icon"@);
    } else if i == 17 {
        assert(t[i] == ("woff"@, "font/woff"@));
        assert(type_of("woff"@) == "font/woff"@);
    } else if i == 18 {
        assert(t[i] == ("woff2"@, "font/woff2"@));
        assert(type_of("woff2"@) == "font/woff2"@);
    } else if i == 19 {
        assert(t[i] == ("ttf"@, "font/ttf"@));
        assert(type_of("ttf"@) == "font/ttf"@);
    } else if i == 20 {
        assert(t[i] == ("otf"@, "font/otf"@));
        assert(type_of("otf"@) == "font/otf"@);
    } else if i == 21 {
        assert(t[i] == ("wasm"@, "application/wasm"@));
        assert(type_of("wasm"@) == "application/wasm"@);
    } else if i == 22 {
        assert(t[i] == ("pdf"@, "application/pdf"@));
        assert(type_of("pdf"@) == "application/pdf"@);
    } else if i == 23 {
        assert(t[i] == ("zip"@, "application/zip"@));
        assert(type_of("zip"@) == "application/zip"@);
    } else if i == 24 {
        assert(t[i] == ("gz"@, "application/gzip"@));
        assert(type_of("gz"@) == "application/gzip"@);
    } else if i == 25 {
        assert(t[i] == ("mp3"@, "audio/mpeg"@));
        assert(type_of("mp3"@) == "audio/mpeg"@);
    } else if i == 26 {
        assert(t[i] == ("ogg"@, "audio/ogg"@));
        assert(type_of("ogg"@) == "audio/ogg"@);
    } else if i == 27 {
        assert(t[i] == ("wav"@, "audio/wav"@));
        assert(type_of("wav"@) == "audio/wav"@);
    } else if i == 28 {
        assert(t[i] == ("mp4"@, "video/mp4"@));
        assert(type_of("mp4"@) == "video/mp4"@);
    } else if i == 29 {
        assert(t[i] == ("webm"@, "video/webm"@));
        assert(type_of("webm"@) == "video/webm"@);
    }
    if forall|k: int| 0 <= k < t.len() ==> (#[trigger] t[k]).0 != ext {
        assert(t[0].0 != ext && t[1].0 != ext && t[2].0 != ext && t[3].0 != ext && t[4].0 != ext
            && t[5].0 != ext && t[6].0 != ext && t[7].0 != ext && t[8].0 != ext && t[9].0 != ext
            && t[10].0 != ext && t[11].0 != ext && t[12].0 != ext && t[13].0 != ext && t[14].0
            != ext && t[15].0 != ext && t[16].0 != ext && t[17].0 != ext && t[18].0 != ext
            && t[19].0 != ext && t[20].0 != ext && t[21].0 != ext && t[22].0 != ext && t[23].0
            != ext && t[24].0 != ext && t[25].0 != ext && t[26].0 != ext && t[27].0 != ext
            && t[28].0 != ext && t[29].0 != ext);
    }
}

/// The essence of a content type is what stands before its parameters, without
/// blanks and in lower case.
pub proof fn law_essence(t: Seq<char>, params: Seq<char>)
    requires
        !t.contains(';'),
        crate::text::tight(t),
    ensures
        essence(t) == lower(t),
        essence(t + seq![';'] + params) == lower(t),
        essence(t + seq![' ', ';'] + params) == lower(t),
{
    let e = Seq::<char>::empty();
    let b = seq![' '];
    lemma_unsplit(t, ';');
    lemma_split_around(t, params, ';');
    law_trim(e, t, e);
    assert(e + t + e =~= t);
    law_trim(e, t, b);
    let u = t + b;
    assert(e + t + b =~= u);
    assert(!u.contains(';')) by {
        assert forall|i: int| 0 <= i < u.len() implies u[i] != ';' by {
            if i < t.len() {
                assert(t.contains(t[i]));
            }
        }
    }
    lemma_unsplit(u, ';');
    lemma_split_around(u, params, ';');
    assert(t + seq![' ', ';'] + params =~= u + seq![';'] + params);
}

/// Pictures, films and sounds are compressed already, but for SVG, which is text;
/// texts and documents are not.
pub proof fn law_compressed_types(kind: Seq<char>)
    ensures
        compressed_type("video/"@ + kind),
        compressed_type("audio/"@ + kind),
        kind != "svg+xml"@ ==> compressed_type("image/"@ + kind),
        !compressed_type("image/svg+xml"@),
        !compressed_type("text/"@ + kind),
{
    reveal_strlit("video/");
    reveal_strlit("audio/");
    reveal_strlit("image/");
    reveal_strlit("text/");
    reveal_strlit("svg+xml");
    reveal_strlit("image/svg+xml");
    reveal_strlit("application/zip");
    reveal_strlit("application/gzip");
    reveal_strlit("application/x-gzip");
    reveal_strlit("application/x-7z-compressed");
    reveal_strlit("application/x-bzip2");
    reveal_strlit("application/x-xz");
    reveal_strlit("application/zstd");
    reveal_strlit("font/woff");
    reveal_strlit("font/woff2");
    law_strip_prefix("video/"@, kind);
    law_strip_prefix("audio/"@, kind);
    law_strip_prefix("image/"@, kind);
    let i = "image/"@ + kind;
    if i == "image/svg+xml"@ {
        assert(kind =~= i.skip(6));
        assert("svg+xml"@ =~= i.skip(6));
    }
    let t = "text/"@ + kind;
    assert(t[0] == 't');
    if starts_with(t, "image/"@) {
        assert(t.take(6)[0] == t[0]);
    }
    if starts_with(t, "video/"@) {
        assert(t.take(6)[0] == t[0]);
    }
    if starts_with(t, "audio/"@) {
        assert(t.take(6)[0] == t[0]);
    }
    let s = "image/svg+xml"@;
    assert(s[0] == 'i');
    if starts_with(s, "video/"@) {
        assert(s.take(6)[0] == s[0]);
    }
    if starts_with(s, "audio/"@) {
        assert(s.take(6)[0] == s[0]);
    }
}

} // verus!
