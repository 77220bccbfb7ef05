//! Which wikilink targets open outside the app, stated by their extension.
use vstd::prelude::*;
use crate::text::{ends_with, lowercase_text};
use crate::wikilink::{
    before_hash, is_external_extension, is_external_target, lemma_rfind_char, rfind_char,
};

verus! {

/// The extensions of files that open in the system's default application,
/// letter by letter.
pub open spec fn listed_extensions() -> Seq<Seq<char>> {
    seq![
        seq!['h', 't', 'm', 'l'],
        seq!['h', 't', 'm'],
        seq!['p', 'd', 'f'],
        seq!['p', 'n', 'g'],
        seq!['j', 'p', 'g'],
        seq!['j', 'p', 'e', 'g'],
        seq!['s', 'v', 'g'],
        seq!['g', 'i', 'f'],
        seq!['m', 'p', '4'],
        seq!['m', 'p', '3'],
        seq!['w', 'a', 'v'],
        seq!['o', 'g', 'g'],
        seq!['w', 'e', 'b', 'm'],
        seq!['w', 'e', 'b', 'p'],
        seq!['x', 'l', 's', 'x'],
        seq!['d', 'o', 'c', 'x'],
        seq!['p', 'p', 't', 'x'],
        seq!['c', 's', 'v'],
        seq!['z', 'i', 'p'],
        seq!['7', 'z'],
        seq!['t', 'a', 'r'],
        seq!['g', 'z'],
    ]
}

proof fn lemma_listed_is_external(e: Seq<char>)
    ensures
        listed_extensions().contains(e) <==> is_external_extension(e),
        listed_extensions().contains(e) ==> forall|j: int| 0 <= j < e.len() ==> #[trigger] e[j] != '.',
{
    reveal_strlit("html");
    reveal_strlit("htm");
    reveal_strlit("pdf");
    reveal_strlit("png");
    reveal_strlit("jpg");
    reveal_strlit("jpeg");
    reveal_strlit("svg");
    reveal_strlit("gif");
    reveal_strlit("mp4");
    reveal_strlit("mp3");
    reveal_strlit("wav");
    reveal_strlit("ogg");
    reveal_strlit("webm");
    reveal_strlit("webp");
    reveal_strlit("xlsx");
    reveal_strlit("docx");
    reveal_strlit("pptx");
    reveal_strlit("csv");
    reveal_strlit("zip");
    reveal_strlit("7z");
    reveal_strlit("tar");
    reveal_strlit("gz");
    let l = listed_extensions();
    if l.contains(e) {
        let k = choose|k: int| 0 <= k < l.len() && l[k] == e;
        if k == 0 { assert(e == "html"@); }
        if k == 1 { assert(e == "htm"@); }
        if k == 2 { assert(e == "pdf"@); }
        if k == 3 { assert(e == "png"@); }
        if k == 4 { assert(e == "jpg"@); }
        if k == 5 { assert(e == "jpeg"@); }
        if k == 6 { assert(e == "svg"@); }
        if k == 7 { assert(e == "gif"@); }
        if k == 8 { assert(e == "mp4"@); }
        if k == 9 { assert(e == "mp3"@); }
        if k == 10 { assert(e == "wav"@); }
        if k == 11 { assert(e == "ogg"@); }
        if k == 12 { assert(e == "webm"@); }
        if k == 13 { assert(e == "webp"@); }
        if k == 14 { assert(e == "xlsx"@); }
        if k == 15 { assert(e == "docx"@); }
        if k == 16 { assert(e == "pptx"@); }
        if k == 17 { assert(e == "csv"@); }
        if k == 18 { assert(e == "zip"@); }
        if k == 19 { assert(e == "7z"@); }
        if k == 20 { assert(e == "tar"@); }
        if k == 21 { assert(e == "gz"@); }
    }
    if is_external_extension(e) {
        if e == "html"@ { assert(l[0] == e); }
        if e == "htm"@ { assert(l[1] == e); }
        if e == "pdf"@ { assert(l[2] == e); }
        if e == "png"@ { assert(l[3] == e); }
        if e == "jpg"@ { assert(l[4] == e); }
        if e == "jpeg"@ { assert(l[5] == e); }
        if e == "svg"@ { assert(l[6] == e); }
        if e == "gif"@ { assert(l[7] == e); }
        if e == "mp4"@ { assert(l[8] == e); }
        if e == "mp3"@ { assert(l[9] == e); }
        if e == "wav"@ { assert(l[10] == e); }
        if e == "ogg"@ { assert(l[11] == e); }
        if e == "webm"@ { assert(l[12] == e); }
        if e == "webp"@ { assert(l[13] == e); }
        if e == "xlsx"@ { assert(l[14] == e); }
        if e == "docx"@ { assert(l[15] == e); }
        if e == "pptx"@ { assert(l[16] == e); }
        if e == "csv"@ { assert(l[17] == e); }
        if e == "zip"@ { assert(l[18] == e); }
        if e == "7z"@ { assert(l[19] == e); }
        if e == "tar"@ { assert(l[20] == e); }
        if e == "gz"@ { assert(l[21] == e); }
    }
}

/// The last `c` of `s` is at `k` when `s[k]` is `c` and none follows it.
proof fn lemma_rfind_at(s: Seq<char>, c: char, k: int)
    requires
        0 <= k < s.len(),
        s[k] == c,
        forall|j: int| k < j < s.len() ==> #[trigger] s[j] != c,
    ensures
        rfind_char(s, c) == Some(k),
    decreases s.len(),
{
    if s.last() != c {
        lemma_rfind_at(s.drop_last(), c, k);
    }
}

/// Every target whose lowercase form, heading fragment removed, ends in `.`
/// and one of the listed extensions opens outside the app; and only those
/// do.
pub proof fn law_external_extensions(target: Seq<char>, ext: Seq<char>)
    ensures
        listed_extensions().contains(ext) && ends_with(
            before_hash(lowercase_text(target)),
            seq!['.'] + ext,
        ) ==> is_external_target(target),
        is_external_target(target) ==> exists|e: Seq<char>|
            #[trigger] listed_extensions().contains(e) && ends_with(
                before_hash(lowercase_text(target)),
                seq!['.'] + e,
            ),
{
    let stem = before_hash(lowercase_text(target));
    lemma_listed_is_external(ext);
    if listed_extensions().contains(ext) && ends_with(stem, seq!['.'] + ext) {
        let k = stem.len() - ext.len() - 1;
        assert(stem.skip(k) == seq!['.'] + ext);
        assert(stem[k] == (seq!['.'] + ext)[0]);
        assert forall|j: int| k < j < stem.len() implies #[trigger] stem[j] != '.' by {
            assert(stem[j] == (seq!['.'] + ext)[j - k]);
            assert(ext[j - k - 1] != '.');
        }
        lemma_rfind_at(stem, '.', k);
        assert(stem.skip(k + 1) =~= stem.skip(k).skip(1));
        assert((seq!['.'] + ext).skip(1) =~= ext);
    }
    if is_external_target(target) {
        lemma_rfind_char(stem, '.');
        let i = rfind_char(stem, '.')->0;
        let e = stem.skip(i + 1);
        lemma_listed_is_external(e);
        assert(stem.skip(stem.len() - (e.len() + 1)) =~= seq!['.'] + e);
    }
}

} // verus!
