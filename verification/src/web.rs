//! Secure static-asset serving: path-traversal defence, hidden-file
//! protection, symlink containment, MIME and cache-policy
//! classification, and single-page-app fallback.
//!
//! The filesystem itself — canonicalisation, directory tests, reads —
//! is the host runtime's; every decision over the resulting path
//! strings is made and verified here.

use vstd::prelude::*;

use crate::strutil::{
    dec_str, join_spec, join_strings, lower_seq, split_char, split_spec, str_eq, str_eq_lower,
    u64_to_string, views_of,
};

verus! {

/// A path segment that survives normalisation: non-empty and neither
/// `.` nor `..`.
pub open spec fn regular_seg(s: Seq<char>) -> bool {
    s.len() > 0 && s != seq!['.'] && s != seq!['.', '.']
}

/// Segment-wise normalisation: empty and `.` segments are dropped, and
/// `..` pops the last kept segment — a no-op with none kept, so no path
/// escapes above its root.
pub open spec fn norm_rec(acc: Seq<Seq<char>>, segs: Seq<Seq<char>>) -> Seq<Seq<char>>
    decreases segs.len(),
{
    if segs.len() == 0 {
        acc
    } else {
        let s = segs[0];
        let acc2 = if s.len() == 0 || s == seq!['.'] {
            acc
        } else if s == seq!['.', '.'] {
            if acc.len() > 0 {
                acc.drop_last()
            } else {
                acc
            }
        } else {
            acc.push(s)
        };
        norm_rec(acc2, segs.drop_first())
    }
}

pub open spec fn norm_segs(segs: Seq<Seq<char>>) -> Seq<Seq<char>> {
    norm_rec(Seq::<Seq<char>>::empty(), segs)
}

/// The normalised form of a request path: its kept segments joined
/// under a single leading slash.
pub open spec fn clean_path_spec(p: Seq<char>) -> Seq<char> {
    seq!['/'] + join_spec(norm_segs(split_spec(p, '/')), '/')
}

/// Normalise a request path, segment by segment.
pub fn clean_path(p: &str) -> (r: String)
    ensures
        r@ == clean_path_spec(p@),
        r@.len() >= 1 && r@[0] == '/',
{
    let segs = split_char(p, '/');
    let ghost all = views_of(segs@);
    let mut parts: Vec<String> = Vec::new();
    let n = segs.len();
    let mut i: usize = 0;
    proof {
        assert(all.skip(0) =~= all);
        assert(views_of(parts@) =~= Seq::<Seq<char>>::empty());
    }
    while i < n
        invariant
            n == segs@.len(),
            i <= n,
            all == views_of(segs@),
            norm_rec(views_of(parts@), all.skip(i as int)) == norm_segs(all),
        decreases n - i,
    {
        let ghost acc = views_of(parts@);
        let ghost rest = all.skip(i as int);
        proof {
            reveal_strlit(".");
            reveal_strlit("..");
            assert(rest[0] == all[i as int]);
            assert(rest.drop_first() =~= all.skip(i + 1));
        }
        let seg = &segs[i];
        if seg.as_str().is_empty() || str_eq(seg.as_str(), ".") {
            proof {
                assert(seg@.len() == 0 || seg@ == seq!['.']) by {
                    assert("."@ =~= seq!['.']);
                }
            }
        } else if str_eq(seg.as_str(), "..") {
            proof {
                assert(seg@ == seq!['.', '.']) by {
                    assert(".."@ =~= seq!['.', '.']);
                }
                assert(seg@.len() > 0 && seg@ != seq!['.']) by {
                    assert(seq!['.', '.'].len() == 2);
                }
            }
            if parts.len() > 0 {
                let _dropped = parts.pop();
            }
            proof {
                if acc.len() > 0 {
                    assert(views_of(parts@) =~= acc.drop_last());
                } else {
                    assert(views_of(parts@) =~= acc);
                }
            }
        } else {
            proof {
                assert(seg@.len() > 0 && seg@ != seq!['.'] && seg@ != seq!['.', '.']) by {
                    assert("."@ =~= seq!['.']);
                    assert(".."@ =~= seq!['.', '.']);
                }
            }
            parts.push(seg.clone());
            proof {
                assert(views_of(parts@) =~= acc.push(seg@));
            }
        }
        i += 1;
    }
    proof {
        assert(all.skip(n as int) =~= Seq::<Seq<char>>::empty());
        reveal_strlit("/");
        assert("/"@ =~= seq!['/']);
    }
    let joined = join_strings(&parts, "/");
    let mut r = String::from_str("/");
    r.append(joined.as_str());
    proof {
        assert(r@ == clean_path_spec(p@));
        assert(r@[0] == '/');
    }
    r
}

proof fn lemma_norm_keeps_regular(acc: Seq<Seq<char>>, segs: Seq<Seq<char>>, c: char)
    requires
        forall|k: int| 0 <= k < acc.len() ==> regular_seg(#[trigger] acc[k]) && !acc[k].contains(c),
        forall|k: int| 0 <= k < segs.len() ==> !(#[trigger] segs[k]).contains(c),
    ensures
        forall|k: int|
            0 <= k < norm_rec(acc, segs).len() ==> regular_seg(#[trigger] norm_rec(acc, segs)[k])
                && !norm_rec(acc, segs)[k].contains(c),
    decreases segs.len(),
{
    if segs.len() > 0 {
        let s = segs[0];
        let acc2 = if s.len() == 0 || s == seq!['.'] {
            acc
        } else if s == seq!['.', '.'] {
            if acc.len() > 0 {
                acc.drop_last()
            } else {
                acc
            }
        } else {
            acc.push(s)
        };
        assert(!segs[0].contains(c));
        assert forall|k: int| 0 <= k < acc2.len() implies regular_seg(#[trigger] acc2[k])
            && !acc2[k].contains(c) by {
            if !(s.len() == 0 || s == seq!['.']) && s != seq!['.', '.'] && k == acc.len() {
                assert(acc2[k] == s);
            }
        }
        assert forall|k: int| 0 <= k < segs.drop_first().len() implies !(
        #[trigger] segs.drop_first()[k]).contains(c) by {
            assert(segs.drop_first()[k] == segs[k + 1]);
        }
        lemma_norm_keeps_regular(acc2, segs.drop_first(), c);
        assert forall|k: int|
            0 <= k < norm_rec(acc, segs).len() implies regular_seg(#[trigger] norm_rec(acc, segs)[k])
            && !norm_rec(acc, segs)[k].contains(c) by {
            assert(norm_rec(acc, segs) == norm_rec(acc2, segs.drop_first()));
            assert(regular_seg(norm_rec(acc2, segs.drop_first())[k]));
            assert(!norm_rec(acc2, segs.drop_first())[k].contains(c));
        }
    }
}

proof fn lemma_norm_regular_appends(acc: Seq<Seq<char>>, segs: Seq<Seq<char>>)
    requires
        forall|k: int| 0 <= k < segs.len() ==> regular_seg(#[trigger] segs[k]),
    ensures
        norm_rec(acc, segs) == acc + segs,
    decreases segs.len(),
{
    if segs.len() == 0 {
        assert(acc + segs =~= acc);
    } else {
        let s = segs[0];
        assert(regular_seg(s));
        assert forall|k: int| 0 <= k < segs.drop_first().len() implies regular_seg(
            #[trigger] segs.drop_first()[k],
        ) by {
            assert(segs.drop_first()[k] == segs[k + 1]);
        }
        lemma_norm_regular_appends(acc.push(s), segs.drop_first());
        assert(acc.push(s) + segs.drop_first() =~= acc + segs);
    }
}

/// Normalising an already-normalised path changes nothing.
pub proof fn lemma_clean_idempotent(p: Seq<char>)
    ensures
        clean_path_spec(clean_path_spec(p)) == clean_path_spec(p),
{
    let segs = split_spec(p, '/');
    crate::strutil::lemma_split_parts_free(p, '/');
    let outs = norm_segs(segs);
    lemma_norm_keeps_regular(Seq::<Seq<char>>::empty(), segs, '/');
    let cleaned = clean_path_spec(p);
    assert(cleaned =~= Seq::<char>::empty() + seq!['/'] + join_spec(outs, '/'));
    crate::strutil::lemma_split_append_sep(
        Seq::<char>::empty(),
        join_spec(outs, '/'),
        '/',
    );
    assert(split_spec(Seq::<char>::empty(), '/') =~~= seq![Seq::<char>::empty()]);
    if outs.len() == 0 {
        assert(join_spec(outs, '/') == Seq::<char>::empty());
        assert(split_spec(cleaned, '/') =~~= seq![Seq::<char>::empty(), Seq::<char>::empty()]);
        assert(norm_segs(split_spec(cleaned, '/')) =~~= outs) by {
            reveal_with_fuel(norm_rec, 3);
        }
    } else {
        crate::strutil::lemma_split_join(outs, '/');
        assert(split_spec(cleaned, '/') =~~= seq![Seq::<char>::empty()] + outs);
        let withe = seq![Seq::<char>::empty()] + outs;
        assert(withe[0].len() == 0);
        assert(withe.drop_first() =~= outs);
        assert(norm_segs(withe) == norm_rec(Seq::<Seq<char>>::empty(), outs));
        lemma_norm_regular_appends(Seq::<Seq<char>>::empty(), outs);
        assert(Seq::<Seq<char>>::empty() + outs =~= outs);
    }
    assert(clean_path_spec(cleaned) == cleaned);
}

/// A segment that hides a file: it starts with `.` and is longer than
/// one character.
pub open spec fn hidden_seg(s: Seq<char>) -> bool {
    s.len() > 1 && s[0] == '.'
}

/// Whether any segment of `p` is a hidden-file segment.
pub open spec fn has_hidden_segment_spec(p: Seq<char>) -> bool {
    exists|k: int|
        0 <= k < split_spec(p, '/').len() && hidden_seg(#[trigger] split_spec(p, '/')[k])
}

/// Whether any segment of `p` begins with `.` and has more behind it.
pub fn has_hidden_segment(p: &str) -> (r: bool)
    ensures
        r <==> has_hidden_segment_spec(p@),
{
    let segs = split_char(p, '/');
    let n = segs.len();
    let mut i: usize = 0;
    while i < n
        invariant
            n == segs@.len(),
            i <= n,
            views_of(segs@) == split_spec(p@, '/'),
            forall|j: int| 0 <= j < i ==> !hidden_seg(#[trigger] split_spec(p@, '/')[j]),
        decreases n - i,
    {
        let seg = &segs[i];
        if seg.as_str().unicode_len() > 1 && seg.as_str().get_char(0) == '.' {
            proof {
                assert(hidden_seg(split_spec(p@, '/')[i as int]));
            }
            return true;
        }
        i += 1;
    }
    false
}

/// Whether `child` lies at or below `root`, comparing slash-separated
/// segments, as path prefixing does.
pub open spec fn path_within(root: Seq<char>, child: Seq<char>) -> bool {
    split_spec(root, '/').is_prefix_of(split_spec(child, '/'))
}

/// Whether the path `child` equals `root` or descends from it.
pub fn path_starts_with(child: &str, root: &str) -> (r: bool)
    ensures
        r <==> path_within(root@, child@),
{
    let rp = split_char(root, '/');
    let cp = split_char(child, '/');
    let rn = rp.len();
    let cn = cp.len();
    if rn > cn {
        return false;
    }
    let mut i: usize = 0;
    while i < rn
        invariant
            rn == rp@.len(),
            cn == cp@.len(),
            rn <= cn,
            i <= rn,
            views_of(rp@) == split_spec(root@, '/'),
            views_of(cp@) == split_spec(child@, '/'),
            forall|j: int| 0 <= j < i ==> views_of(rp@)[j] == views_of(cp@)[j],
        decreases rn - i,
    {
        if !str_eq(rp[i].as_str(), cp[i].as_str()) {
            proof {
                let rv = views_of(rp@);
                let cv = views_of(cp@);
                assert(rv[i as int] != cv.subrange(0, rn as int)[i as int]);
                assert(!(rv =~= cv.subrange(0, rn as int)));
            }
            return false;
        }
        i += 1;
    }
    proof {
        assert(views_of(rp@) =~= views_of(cp@).subrange(0, rn as int));
    }
    true
}

/// Whether `needle` occurs contiguously inside `hay`.
pub open spec fn contains_sub_spec(hay: Seq<char>, needle: Seq<char>) -> bool {
    exists|i: int|
        0 <= i && i + needle.len() <= hay.len() && #[trigger] hay.subrange(i, i + needle.len())
            == needle
}

/// Substring search by scan.
pub fn contains_sub(hay: &str, needle: &str) -> (r: bool)
    ensures
        r <==> contains_sub_spec(hay@, needle@),
{
    let hn = hay.unicode_len();
    let nn = needle.unicode_len();
    if nn > hn {
        return false;
    }
    let mut i: usize = 0;
    while i <= hn - nn
        invariant
            hn == hay@.len(),
            nn == needle@.len(),
            nn <= hn,
            i <= hn - nn + 1,
            forall|x: int| 0 <= x < i ==> #[trigger] hay@.subrange(x, x + nn) != needle@,
        decreases hn + 1 - i,
    {
        let mut j: usize = 0;
        let mut matched = true;
        while j < nn
            invariant
                hn == hay@.len(),
                nn == needle@.len(),
                i + nn <= hn,
                j <= nn,
                matched <==> (forall|y: int| 0 <= y < j ==> hay@[i + y] == needle@[y]),
            decreases nn - j,
        {
            if hay.get_char(i + j) != needle.get_char(j) {
                proof {
                    assert(hay@[i + j] != needle@[j as int]);
                }
                matched = false;
                j = nn;
            } else {
                j += 1;
            }
        }
        if matched {
            proof {
                assert(hay@.subrange(i as int, i + nn) =~= needle@);
            }
            return true;
        }
        proof {
            assert(hay@.subrange(i as int, i + nn) != needle@) by {
                let y = choose|y: int| 0 <= y < nn && hay@[i + y] != needle@[y];
                assert(hay@.subrange(i as int, i + nn)[y] == hay@[i + y]);
            }
        }
        i += 1;
    }
    proof {
        assert(!contains_sub_spec(hay@, needle@)) by {
            if contains_sub_spec(hay@, needle@) {
                let x = choose|x: int|
                    0 <= x && x + needle@.len() <= hay@.len() && #[trigger] hay@.subrange(
                        x,
                        x + needle@.len(),
                    ) == needle@;
                assert(x < i);
            }
        }
    }
    false
}

/// The file-name component of a path: everything behind the last slash.
pub open spec fn file_name_spec(p: Seq<char>) -> Seq<char> {
    split_spec(p, '/').last()
}

/// The extension of a file name, as paths know it: the part behind the
/// last dot, unless there is no dot or only the leading dot of a
/// hidden file.
pub open spec fn ext_spec(name: Seq<char>) -> Option<Seq<char>> {
    let ps = split_spec(name, '.');
    if ps.len() == 1 {
        None
    } else if ps.len() == 2 && ps[0].len() == 0 {
        None
    } else {
        Some(ps.last())
    }
}

/// The stem of a file name: what stands before its extension.
pub open spec fn stem_spec(name: Seq<char>) -> Seq<char> {
    match ext_spec(name) {
        Some(e) => name.take(name.len() - e.len() - 1),
        None => name,
    }
}

/// The extension of the file a path names, lower-cased later by the
/// MIME table.
pub fn path_extension(p: &str) -> (r: Option<String>)
    ensures
        match r {
            Some(e) => ext_spec(file_name_spec(p@)) == Some(e@),
            None => ext_spec(file_name_spec(p@)) is None,
        },
{
    let segs = split_char(p, '/');
    let name = &segs[segs.len() - 1];
    proof {
        assert(views_of(segs@)[segs@.len() - 1] == name@);
        assert(file_name_spec(p@) == name@);
    }
    let ps = split_char(name.as_str(), '.');
    if ps.len() == 1 {
        return None;
    }
    if ps.len() == 2 && ps[0].as_str().is_empty() {
        proof {
            assert(views_of(ps@)[0].len() == 0);
        }
        return None;
    }
    let last = &ps[ps.len() - 1];
    proof {
        assert(views_of(ps@)[ps@.len() - 1] == last@);
    }
    Some(last.clone())
}

/// The MIME type of a lower-cased extension: a fixed table of common
/// text, image, font, audio/video and application types; anything else
/// is generic binary.
pub open spec fn mime_table(e: Seq<char>) -> Seq<char> {
    if e == "html"@ || e == "htm"@ {
        "text/html; charset=utf-8"@
    } else if e == "css"@ {
        "text/css; charset=utf-8"@
    } else if e == "js"@ || e == "mjs"@ {
        "application/javascript; charset=utf-8"@
    } else if e == "json"@ {
        "application/json; charset=utf-8"@
    } else if e == "xml"@ {
        "application/xml; charset=utf-8"@
    } else if e == "svg"@ {
        "image/svg+xml"@
    } else if e == "png"@ {
        "image/png"@
    } else if e == "jpg"@ || e == "jpeg"@ {
        "image/jpeg"@
    } else if e == "gif"@ {
        "image/gif"@
    } else if e == "webp"@ {
        "image/webp"@
    } else if e == "avif"@ {
        "image/avif"@
    } else if e == "ico"@ {
        "image/x-icon"@
    } else if e == "woff"@ {
        "font/woff"@
    } else if e == "woff2"@ {
        "font/woff2"@
    } else if e == "ttf"@ {
        "font/ttf"@
    } else if e == "otf"@ {
        "font/otf"@
    } else if e == "eot"@ {
        "application/vnd.ms-fontobject"@
    } else if e == "pdf"@ {
        "application/pdf"@
    } else if e == "zip"@ {
        "application/zip"@
    } else if e == "wasm"@ {
        "application/wasm"@
    } else if e == "map"@ {
        "application/json"@
    } else if e == "txt"@ {
        "text/plain; charset=utf-8"@
    } else if e == "md"@ {
        "text/markdown; charset=utf-8"@
    } else if e == "csv"@ {
        "text/csv; charset=utf-8"@
    } else if e == "mp4"@ {
        "video/mp4"@
    } else if e == "webm"@ {
        "video/webm"@
    } else if e == "mp3"@ {
        "audio/mpeg"@
    } else if e == "ogg"@ {
        "audio/ogg"@
    } else {
        "application/octet-stream"@
    }
}

/// The MIME type of the file a path names, by its lower-cased
/// extension; no extension means generic binary.
pub open spec fn mime_spec(p: Seq<char>) -> Seq<char> {
    match ext_spec(file_name_spec(p)) {
        Some(e) => mime_table(lower_seq(e)),
        None => "application/octet-stream"@,
    }
}

/// The MIME type of the file a path names.
pub fn mime_for_path(p: &str) -> (r: String)
    ensures
        r@ == mime_spec(p@),
{
    let e = match path_extension(p) {
        Some(e) => e,
        None => {
            return String::from_str("application/octet-stream");
        },
    };
    let s = e.as_str();
    if str_eq_lower(s, "html") || str_eq_lower(s, "htm") {
        String::from_str("text/html; charset=utf-8")
    } else if str_eq_lower(s, "css") {
        String::from_str("text/css; charset=utf-8")
    } else if str_eq_lower(s, "js") || str_eq_lower(s, "mjs") {
        String::from_str("application/javascript; charset=utf-8")
    } else if str_eq_lower(s, "json") {
        String::from_str("application/json; charset=utf-8")
    } else if str_eq_lower(s, "xml") {
        String::from_str("application/xml; charset=utf-8")
    } else if str_eq_lower(s, "svg") {
        String::from_str("image/svg+xml")
    } else if str_eq_lower(s, "png") {
        String::from_str("image/png")
    } else if str_eq_lower(s, "jpg") || str_eq_lower(s, "jpeg") {
        String::from_str("image/jpeg")
    } else if str_eq_lower(s, "gif") {
        String::from_str("image/gif")
    } else if str_eq_lower(s, "webp") {
        String::from_str("image/webp")
    } else if str_eq_lower(s, "avif") {
        String::from_str("image/avif")
    } else if str_eq_lower(s, "ico") {
        String::from_str("image/x-icon")
    } else if str_eq_lower(s, "woff") {
        String::from_str("font/woff")
    } else if str_eq_lower(s, "woff2") {
        String::from_str("font/woff2")
    } else if str_eq_lower(s, "ttf") {
        String::from_str("font/ttf")
    } else if str_eq_lower(s, "otf") {
        String::from_str("font/otf")
    } else if str_eq_lower(s, "eot") {
        String::from_str("application/vnd.ms-fontobject")
    } else if str_eq_lower(s, "pdf") {
        String::from_str("application/pdf")
    } else if str_eq_lower(s, "zip") {
        String::from_str("application/zip")
    } else if str_eq_lower(s, "wasm") {
        String::from_str("application/wasm")
    } else if str_eq_lower(s, "map") {
        String::from_str("application/json")
    } else if str_eq_lower(s, "txt") {
        String::from_str("text/plain; charset=utf-8")
    } else if str_eq_lower(s, "md") {
        String::from_str("text/markdown; charset=utf-8")
    } else if str_eq_lower(s, "csv") {
        String::from_str("text/csv; charset=utf-8")
    } else if str_eq_lower(s, "mp4") {
        String::from_str("video/mp4")
    } else if str_eq_lower(s, "webm") {
        String::from_str("video/webm")
    } else if str_eq_lower(s, "mp3") {
        String::from_str("audio/mpeg")
    } else if str_eq_lower(s, "ogg") {
        String::from_str("audio/ogg")
    } else {
        String::from_str("application/octet-stream")
    }
}

/// Splitting joins back to the string.
proof fn lemma_join_split(s: Seq<char>, c: char)
    ensures
        join_spec(split_spec(s, c), c) == s,
    decreases s.len(),
{
    if s.len() == 0 {
        assert(join_spec(split_spec(s, c), c) =~= s);
    } else if s[0] == c {
        let r = split_spec(s.drop_first(), c);
        crate::strutil::lemma_split_len(s.drop_first(), c);
        lemma_join_split(s.drop_first(), c);
        assert(split_spec(s, c) == seq![Seq::<char>::empty()] + r);
        assert((seq![Seq::<char>::empty()] + r)[0] == Seq::<char>::empty());
        assert((seq![Seq::<char>::empty()] + r).drop_first() =~= r);
        assert(join_spec(split_spec(s, c), c) == Seq::<char>::empty() + seq![c] + join_spec(r, c));
        assert(Seq::<char>::empty() + seq![c] + s.drop_first() =~= s);
    } else {
        let r = split_spec(s.drop_first(), c);
        crate::strutil::lemma_split_len(s.drop_first(), c);
        lemma_join_split(s.drop_first(), c);
        assert(split_spec(s, c) == seq![seq![s[0]] + r[0]] + r.drop_first());
        if r.len() == 1 {
            assert(split_spec(s, c) =~= seq![seq![s[0]] + r[0]]);
            assert(join_spec(split_spec(s, c), c) == seq![s[0]] + r[0]);
            assert(join_spec(r, c) == r[0]);
            assert(seq![s[0]] + s.drop_first() =~= s);
        } else {
            assert(split_spec(s, c)[0] == seq![s[0]] + r[0]);
            assert(split_spec(s, c).drop_first() =~= r.drop_first());
            assert(split_spec(s, c).len() >= 2);
            assert(join_spec(split_spec(s, c), c) == (seq![s[0]] + r[0]) + seq![c] + join_spec(
                r.drop_first(),
                c,
            ));
            assert(join_spec(r, c) == r[0] + seq![c] + join_spec(r.drop_first(), c));
            assert((seq![s[0]] + r[0]) + seq![c] + join_spec(r.drop_first(), c) =~= seq![s[0]] + (
            r[0] + seq![c] + join_spec(r.drop_first(), c)));
            assert(seq![s[0]] + s.drop_first() =~= s);
        }
    }
}

/// A join of two or more tokens is longer than its last token.
proof fn lemma_join_last_len(ts: Seq<Seq<char>>, c: char)
    requires
        ts.len() >= 2,
    ensures
        join_spec(ts, c).len() >= ts.last().len() + 1,
    decreases ts.len(),
{
    if ts.len() == 2 {
        assert(join_spec(ts.drop_first(), c) == ts[1]);
        assert(ts.last() == ts[1]);
    } else {
        lemma_join_last_len(ts.drop_first(), c);
        assert(ts.drop_first().last() == ts.last());
    }
}

/// A file name with an extension is longer than the extension and its
/// dot.
proof fn lemma_ext_fits(name: Seq<char>)
    requires
        ext_spec(name) is Some,
    ensures
        name.len() >= ext_spec(name)->0.len() + 1,
        ext_spec(name)->0 == name.skip(name.len() - ext_spec(name)->0.len()),
{
    let ps = split_spec(name, '.');
    crate::strutil::lemma_split_len(name, '.');
    lemma_join_split(name, '.');
    lemma_join_last_len(ps, '.');
    let e = ps.last();
    assert(name.len() >= e.len() + 1);
    crate::strutil::lemma_split_parts_free(name, '.');
    crate::strutil::lemma_split_join(ps, '.');
    assert(ps.drop_last().push(e) =~= ps);
    crate::strutil::lemma_join_push(ps.drop_last(), e, '.');
    assert(join_spec(ps, '.') == join_spec(ps.drop_last(), '.') + seq!['.'] + e);
    assert(name.skip(name.len() - e.len()) =~= e);
}

/// A character a content hash may consist of.
pub open spec fn is_alnum_char(c: char) -> bool {
    ('0' <= c && c <= '9') || ('a' <= c && c <= 'z') || ('A' <= c && c <= 'Z')
}

/// Whether a name part looks like a content hash: 6 to 32 characters,
/// all alphanumeric, with at least one digit and one letter.
pub open spec fn hash_like(s: Seq<char>) -> bool {
    6 <= s.len() <= 32 && (forall|i: int| 0 <= i < s.len() ==> is_alnum_char(#[trigger] s[i])) && (
    exists|i: int| 0 <= i < s.len() && '0' <= #[trigger] s[i] && s[i] <= '9') && (exists|i: int|
        0 <= i < s.len() && (('a' <= #[trigger] s[i] && s[i] <= 'z') || ('A' <= s[i] && s[i]
            <= 'Z')))
}

/// Whether any `.`/`-`-delimited part of a file stem looks like a
/// content hash.
pub open spec fn stem_has_hash(stem: Seq<char>) -> bool {
    exists|a: int, b: int|
        0 <= a < split_spec(stem, '.').len() && 0 <= b < split_spec(
            split_spec(stem, '.')[a],
            '-',
        ).len() && hash_like(#[trigger] split_spec(split_spec(stem, '.')[a], '-')[b])
}

/// Whether the path runs through a conventional build-output directory.
pub open spec fn hashed_dir_spec(p: Seq<char>) -> bool {
    contains_sub_spec(p, "/assets/"@) || contains_sub_spec(p, "/_next/static/"@)
        || contains_sub_spec(p, "/static/js/"@) || contains_sub_spec(p, "/static/css/"@)
}

/// The hashed-asset heuristic: a build-output directory in the path, or
/// a hash-like part in the file stem.
pub open spec fn hashed_asset_spec(p: Seq<char>) -> bool {
    hashed_dir_spec(p) || stem_has_hash(stem_spec(file_name_spec(p)))
}

fn is_hash_like_part(s: &str) -> (r: bool)
    ensures
        r <==> hash_like(s@),
{
    let n = s.unicode_len();
    if n < 6 || n > 32 {
        return false;
    }
    let mut has_digit = false;
    let mut has_alpha = false;
    let mut i: usize = 0;
    while i < n
        invariant
            n == s@.len(),
            i <= n,
            forall|j: int| 0 <= j < i ==> is_alnum_char(#[trigger] s@[j]),
            has_digit <==> (exists|j: int| 0 <= j < i && '0' <= #[trigger] s@[j] && s@[j] <= '9'),
            has_alpha <==> (exists|j: int|
                0 <= j < i && (('a' <= #[trigger] s@[j] && s@[j] <= 'z') || ('A' <= s@[j] && s@[j]
                    <= 'Z'))),
        decreases n - i,
    {
        let c = s.get_char(i);
        let digit = c >= '0' && c <= '9';
        let alpha = (c >= 'a' && c <= 'z') || (c >= 'A' && c <= 'Z');
        if !digit && !alpha {
            proof {
                assert(!is_alnum_char(s@[i as int]));
            }
            return false;
        }
        if digit {
            proof {
                assert('0' <= s@[i as int] && s@[i as int] <= '9');
            }
            has_digit = true;
        }
        if alpha {
            proof {
                assert(('a' <= s@[i as int] && s@[i as int] <= 'z') || ('A' <= s@[i as int]
                    && s@[i as int] <= 'Z'));
            }
            has_alpha = true;
        }
        i += 1;
    }
    has_digit && has_alpha
}

/// Whether the file a path names may be cached as immutable: it lies in
/// a build-output directory, or its stem carries a hash-like part.
pub fn is_hashed_asset(p: &str) -> (r: bool)
    ensures
        r <==> hashed_asset_spec(p@),
{
    if contains_sub(p, "/assets/") || contains_sub(p, "/_next/static/") || contains_sub(
        p,
        "/static/js/",
    ) || contains_sub(p, "/static/css/") {
        return true;
    }
    let segs = split_char(p, '/');
    let name = &segs[segs.len() - 1];
    proof {
        assert(views_of(segs@)[segs@.len() - 1] == name@);
        assert(file_name_spec(p@) == name@);
    }
    let stem: String = match path_extension(p) {
        Some(e) => {
            proof {
                lemma_ext_fits(name@);
            }
            let nl = name.as_str().unicode_len();
            let el = e.as_str().unicode_len();
            let st = name.as_str().substring_char(0, nl - el - 1);
            proof {
                assert(st@ =~= name@.take(name@.len() - e@.len() - 1));
            }
            st.to_owned()
        },
        None => name.clone(),
    };
    let ghost gstem = stem_spec(file_name_spec(p@));
    proof {
        assert(stem@ == gstem);
    }
    let dots = split_char(stem.as_str(), '.');
    let dn = dots.len();
    let mut a: usize = 0;
    while a < dn
        invariant
            dn == dots@.len(),
            stem@ == gstem,
            gstem == stem_spec(file_name_spec(p@)),
            views_of(dots@) == split_spec(gstem, '.'),
            a <= dn,
            forall|x: int, y: int|
                0 <= x < a && 0 <= y < split_spec(split_spec(gstem, '.')[x], '-').len()
                    ==> !hash_like(#[trigger] split_spec(split_spec(gstem, '.')[x], '-')[y]),
        decreases dn - a,
    {
        let dashes = split_char(dots[a].as_str(), '-');
        let ghost dpart = split_spec(gstem, '.')[a as int];
        proof {
            assert(views_of(dots@)[a as int] == dots@[a as int]@);
            assert(views_of(dashes@) == split_spec(dpart, '-'));
        }
        let bn = dashes.len();
        let mut b: usize = 0;
        while b < bn
            invariant
                bn == dashes@.len(),
                b <= bn,
                gstem == stem_spec(file_name_spec(p@)),
                dpart == split_spec(gstem, '.')[a as int],
                views_of(dashes@) == split_spec(dpart, '-'),
                0 <= a < split_spec(gstem, '.').len(),
                forall|y: int|
                    0 <= y < b ==> !hash_like(#[trigger] split_spec(dpart, '-')[y]),
            decreases bn - b,
        {
            if is_hash_like_part(dashes[b].as_str()) {
                proof {
                    assert(views_of(dashes@)[b as int] == dashes@[b as int]@);
                    assert(hash_like(split_spec(split_spec(gstem, '.')[a as int], '-')[b as int]));
                }
                return true;
            }
            proof {
                assert(views_of(dashes@)[b as int] == dashes@[b as int]@);
            }
            b += 1;
        }
        proof {
            assert forall|x: int, y: int|
                0 <= x < a + 1 && 0 <= y < split_spec(split_spec(gstem, '.')[x], '-').len()
                    implies !hash_like(#[trigger] split_spec(split_spec(gstem, '.')[x], '-')[y]) by {
                if x == a {
                    assert(!hash_like(split_spec(dpart, '-')[y]));
                }
            }
        }
        a += 1;
    }
    proof {
        if stem_has_hash(gstem) {
            let (x, y) = choose|x: int, y: int|
                0 <= x < split_spec(gstem, '.').len() && 0 <= y < split_spec(
                    split_spec(gstem, '.')[x],
                    '-',
                ).len() && hash_like(#[trigger] split_spec(split_spec(gstem, '.')[x], '-')[y]);
            assert(false);
        }
    }
    false
}

/// The cache policy of a served file: HTML always revalidates, a hashed
/// asset is immutable for the configured long age, anything else gets
/// the configured bounded age.
pub open spec fn cache_control_spec(
    p: Seq<char>,
    content_type: Seq<char>,
    cache_age: u32,
    immutable_age: u32,
) -> Seq<char> {
    if "text/html"@.is_prefix_of(content_type) {
        "no-cache"@
    } else if hashed_asset_spec(p) {
        "public, max-age="@ + dec_str(immutable_age as int) + ", immutable"@
    } else {
        "public, max-age="@ + dec_str(cache_age as int)
    }
}

/// The `Cache-Control` value for a served file.
pub fn cache_control(p: &str, content_type: &str, cache_age: u32, immutable_age: u32) -> (r:
    String)
    ensures
        r@ == cache_control_spec(p@, content_type@, cache_age, immutable_age),
{
    if crate::strutil::str_starts_with(content_type, "text/html") {
        return String::from_str("no-cache");
    }
    if is_hashed_asset(p) {
        let mut r = String::from_str("public, max-age=");
        let num = u64_to_string(immutable_age as u64);
        r.append(num.as_str());
        r.append(", immutable");
        return r;
    }
    let mut r = String::from_str("public, max-age=");
    let num = u64_to_string(cache_age as u64);
    r.append(num.as_str());
    r
}

/// The serving configuration in force for one request.
pub struct WebConfig {
    pub root: String,
    pub prefix: String,
    pub spa: bool,
    pub index_file: String,
    pub cache_max_age: u32,
    pub immutable_max_age: u32,
}

/// The static-asset server, with its block-level defaults.
pub struct WebBlock {
    pub default_root: String,
    pub default_prefix: String,
    pub default_spa: bool,
    pub default_index: String,
    pub cache_max_age: u32,
    pub immutable_max_age: u32,
}

impl WebBlock {
    /// The stock defaults: `./public`, no prefix, no SPA fallback,
    /// `index.html`, an hour of bounded caching and a year of immutable
    /// caching.
    pub fn new() -> (r: Self)
        ensures
            r.default_root@ == "./public"@,
            r.default_prefix@.len() == 0,
            !r.default_spa,
            r.default_index@ == "index.html"@,
            r.cache_max_age == 3600,
            r.immutable_max_age == 31536000,
    {
        WebBlock {
            default_root: String::from_str("./public"),
            default_prefix: String::new(),
            default_spa: false,
            default_index: String::from_str("index.html"),
            cache_max_age: 3600,
            immutable_max_age: 31536000,
        }
    }

    /// The configuration for one request: each configured value wins
    /// over the block default, the flag and the ages only where they
    /// parse.
    pub fn get_config(
        &self,
        root: Option<&str>,
        prefix: Option<&str>,
        spa: Option<&str>,
        index: Option<&str>,
        cache_age: Option<&str>,
        immutable_age: Option<&str>,
    ) -> (r: WebConfig)
        ensures
            r.root@ == match root {
                Some(s) => s@,
                None => self.default_root@,
            },
            r.prefix@ == match prefix {
                Some(s) => s@,
                None => self.default_prefix@,
            },
            r.spa == match spa {
                Some(s) => if s@ == "true"@ {
                    true
                } else if s@ == "false"@ {
                    false
                } else {
                    self.default_spa
                },
                None => self.default_spa,
            },
            r.index_file@ == match index {
                Some(s) => s@,
                None => self.default_index@,
            },
            r.cache_max_age == match cache_age {
                Some(s) => if crate::strutil::u32_parsable(s@) {
                    crate::strutil::dec_val(crate::strutil::unsigned_digits(s@)) as u32
                } else {
                    self.cache_max_age
                },
                None => self.cache_max_age,
            },
            r.immutable_max_age == match immutable_age {
                Some(s) => if crate::strutil::u32_parsable(s@) {
                    crate::strutil::dec_val(crate::strutil::unsigned_digits(s@)) as u32
                } else {
                    self.immutable_max_age
                },
                None => self.immutable_max_age,
            },
    {
        let root_s = match root {
            Some(s) => s.to_owned(),
            None => self.default_root.clone(),
        };
        let prefix_s = match prefix {
            Some(s) => s.to_owned(),
            None => self.default_prefix.clone(),
        };
        let spa_b = match spa {
            Some(s) => match crate::strutil::parse_bool(s) {
                Some(b) => b,
                None => self.default_spa,
            },
            None => self.default_spa,
        };
        let index_s = match index {
            Some(s) => s.to_owned(),
            None => self.default_index.clone(),
        };
        let cache_v = match cache_age {
            Some(s) => match crate::strutil::parse_u32(s) {
                Some(v) => v,
                None => self.cache_max_age,
            },
            None => self.cache_max_age,
        };
        let imm_v = match immutable_age {
            Some(s) => match crate::strutil::parse_u32(s) {
                Some(v) => v,
                None => self.immutable_max_age,
            },
            None => self.immutable_max_age,
        };
        WebConfig {
            root: root_s,
            prefix: prefix_s,
            spa: spa_b,
            index_file: index_s,
            cache_max_age: cache_v,
            immutable_max_age: imm_v,
        }
    }
}

/// The request path with the configured prefix stripped; an empty or
/// bare-slash remainder maps to the index file.
pub open spec fn effective_path_spec(
    path: Seq<char>,
    prefix: Seq<char>,
    index_file: Seq<char>,
) -> Seq<char> {
    let stripped = if prefix.len() > 0 && prefix.is_prefix_of(path) {
        path.skip(prefix.len() as int)
    } else {
        path
    };
    if stripped.len() == 0 || stripped == seq!['/'] {
        seq!['/'] + index_file
    } else {
        stripped
    }
}

/// What the server should do before touching the filesystem.
pub enum ServeStep {
    /// Not a GET-equivalent request: 405.
    MethodNotAllowed,
    /// A hidden-file segment survived normalisation: 404.
    NotFound,
    /// Resolve this root-relative path against the web root.
    Resolve { rel: String },
}

/// The pre-filesystem plan for a request: only GET-equivalents are
/// served; the path is prefix-stripped, defaulted to the index,
/// normalised, and refused when a hidden-file segment remains; what is
/// left is the root-relative path to resolve.
pub fn plan_request(action: &str, path: &str, config: &WebConfig) -> (r: ServeStep)
    ensures
        ({
            let clean = clean_path_spec(
                effective_path_spec(path@, config.prefix@, config.index_file@),
            );
            if action@.len() > 0 && action@ != "retrieve"@ {
                r == ServeStep::MethodNotAllowed
            } else if has_hidden_segment_spec(clean) {
                r == ServeStep::NotFound
            } else {
                r matches ServeStep::Resolve { rel } && rel@ == clean.skip(1)
            }
        }),
{
    if !action.is_empty() && !str_eq(action, "retrieve") {
        return ServeStep::MethodNotAllowed;
    }
    let stripped: String = if !config.prefix.as_str().is_empty() {
        match crate::strutil::strip_prefix_str(path, config.prefix.as_str()) {
            Some(s) => s,
            None => path.to_owned(),
        }
    } else {
        path.to_owned()
    };
    let effective: String = if stripped.as_str().is_empty() || str_eq(stripped.as_str(), "/") {
        proof {
            reveal_strlit("/");
            assert("/"@ =~= seq!['/']);
        }
        let mut e = String::from_str("/");
        e.append(config.index_file.as_str());
        e
    } else {
        proof {
            reveal_strlit("/");
            assert("/"@ =~= seq!['/']);
        }
        stripped
    };
    proof {
        assert(effective@ == effective_path_spec(path@, config.prefix@, config.index_file@));
    }
    let clean = clean_path(effective.as_str());
    if has_hidden_segment(clean.as_str()) {
        return ServeStep::NotFound;
    }
    let n = clean.as_str().unicode_len();
    let rel = clean.as_str().substring_char(1, n).to_owned();
    proof {
        assert(rel@ =~= clean@.skip(1));
    }
    ServeStep::Resolve { rel }
}

/// What the server does with the canonicalised path of a request.
pub enum ResolveOutcome {
    /// The resolved path lies inside the root: serve it.
    Serve { path: String },
    /// Nothing resolved and SPA mode is on: serve the index instead.
    SpaFallback,
    /// Nothing resolved, or the resolved path escapes the root: 404.
    NotFound,
}

/// The containment decision: a file is served only when its resolved,
/// symlink-free path still lies below the canonical root; a path that
/// resolved nowhere falls back to the SPA index or to 404.
pub fn resolve_step(root_canon: &str, resolved: Option<String>, spa: bool) -> (r: ResolveOutcome)
    ensures
        r matches ResolveOutcome::Serve { path } ==> path_within(root_canon@, path@) && (
        resolved matches Some(p) && p@ == path@),
        resolved is None && spa ==> r == ResolveOutcome::SpaFallback,
        resolved is None && !spa ==> r == ResolveOutcome::NotFound,
        resolved matches Some(p) ==> (if path_within(root_canon@, p@) {
            r matches ResolveOutcome::Serve { path } && path@ == p@
        } else {
            r == ResolveOutcome::NotFound
        }),
{
    match resolved {
        None => {
            if spa {
                ResolveOutcome::SpaFallback
            } else {
                ResolveOutcome::NotFound
            }
        },
        Some(p) => {
            if path_starts_with(p.as_str(), root_canon) {
                ResolveOutcome::Serve { path: p }
            } else {
                ResolveOutcome::NotFound
            }
        },
    }
}

/// The file a resolved path serves: a directory serves its own index
/// file if it exists, and nothing otherwise.
pub fn directory_target(resolved: String, index_file: &str, is_dir: bool, index_exists: bool)
    -> (r: Option<String>)
    ensures
        !is_dir ==> (r matches Some(t) && t@ == resolved@),
        is_dir && index_exists ==> (r matches Some(t) && t@ == resolved@ + seq!['/']
            + index_file@),
        is_dir && !index_exists ==> r is None,
{
    if !is_dir {
        Some(resolved)
    } else if index_exists {
        proof {
            reveal_strlit("/");
            assert("/"@ =~= seq!['/']);
        }
        let mut t = resolved;
        t.append("/");
        t.append(index_file);
        Some(t)
    } else {
        None
    }
}

/// The content type and cache policy of the SPA fallback response: the
/// index document, always revalidated.
pub fn spa_fallback_headers() -> (r: (String, String))
    ensures
        r.0@ == "text/html; charset=utf-8"@,
        r.1@ == "no-cache"@,
{
    (String::from_str("text/html; charset=utf-8"), String::from_str("no-cache"))
}

} // verus!
