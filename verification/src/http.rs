//! Request tokenization and candidate-file resolution: turning raw request
//! text into an [`HttpObject`], expanding a request path into a glob
//! pattern, scoring the matched files by the negotiated weights, and
//! picking the best match.

use vstd::prelude::*;
use vstd::string::*;

use crate::http_object::pairs_view;
use crate::http_object::HttpObject;
use crate::strutil::contains_char;
use crate::strutil::has_sub;
use crate::strutil::lemma_split_on_has;
use crate::strutil::spec_starts_with;
use crate::strutil::split_on;
use crate::strutil::split_str;
use crate::strutil::str_eq;
use crate::strutil::str_starts_with;

verus! {

/// A line of the request that carries the accept attribute.
pub open spec fn is_accept_line(l: Seq<char>) -> bool {
    spec_starts_with(l, "Accept:"@) || spec_starts_with(l, "accept:"@)
}

/// The first accept line among the request's lines, or the empty line
/// when there is none.
pub open spec fn first_accept_line(lines: Seq<Seq<char>>) -> Seq<char>
    decreases lines.len(),
{
    if lines.len() == 0 {
        Seq::empty()
    } else if is_accept_line(lines[0]) {
        lines[0]
    } else {
        first_accept_line(lines.skip(1))
    }
}

/// The request line and accept line of raw request text: the lines are
/// the text split on CRLF, the first line is the request line, and the
/// accept line is the first one naming the attribute (empty when none
/// does).
pub open spec fn spec_tokenize(raw: Seq<char>) -> (Seq<char>, Seq<char>) {
    let lines = split_on(raw, "\r\n"@);
    (lines[0], first_accept_line(lines))
}

/// Tokenizes incoming request text into the attributes the server reads:
/// the request line and the first accept header line.
#[verifier::loop_isolation(false)]
pub fn request_tokenizer(request: &str) -> (r: HttpObject)
    ensures
        r.request@ == spec_tokenize(request@).0,
        r.accept@ == spec_tokenize(request@).1,
{
    proof {
        reveal_strlit("\r\n");
    }
    let lines = split_str(request, "\r\n");
    let ghost lv = lines.deep_view();
    let request_line = lines[0].clone();
    let mut accept_header = String::new();
    let mut found = false;
    let mut i: usize = 0;
    assert(lv.skip(0) =~= lv);
    while i < lines.len() && !found
        invariant
            lv == lines.deep_view(),
            lv.len() == lines@.len(),
            0 <= i <= lv.len(),
            !found ==> first_accept_line(lv) == first_accept_line(lv.skip(i as int)),
            !found ==> accept_header@ == Seq::<char>::empty(),
            found ==> first_accept_line(lv) == accept_header@,
        decreases lv.len() - i,
    {
        let line = &lines[i];
        assert(line@ == lv[i as int]);
        assert(lv.skip(i as int)[0] == lv[i as int]);
        assert(lv.skip(i as int).skip(1) =~= lv.skip(i + 1));
        if str_starts_with(line.as_str(), "Accept:") || str_starts_with(
            line.as_str(),
            "accept:",
        ) {
            accept_header = line.clone();
            found = true;
        }
        i = i + 1;
    }
    if !found {
        assert(lv.skip(i as int) =~= Seq::<Seq<char>>::empty());
    }
    HttpObject::new(request_line, accept_header)
}

/// Whether raw request text is accepted: its request line is valid
/// HTTP/1.1 and its accept header parses into a negotiation table.
pub open spec fn spec_request_accepted(raw: Seq<char>) -> bool {
    crate::http_object::spec_is_http(spec_tokenize(raw).0) && crate::http_object::accept_ok(
        spec_tokenize(raw).1,
    )
}

/// The error a rejected request reports: the request-line complaint when
/// the line is not valid HTTP/1.1, else the accept header's own error.
pub open spec fn spec_request_error(raw: Seq<char>) -> Seq<char> {
    if !crate::http_object::spec_is_http(spec_tokenize(raw).0) {
        "This is not an http request"@
    } else {
        crate::http_object::spec_accept_error(spec_tokenize(raw).1)
    }
}

/// Runs raw request text through the parser and the negotiator: yields
/// the request path and the weighted media-type table when the request
/// is valid HTTP/1.1 with a parsable accept header, and the error that
/// drives a 400 Bad Request otherwise.
pub fn plan_request(raw: &str) -> (r: Result<(String, Vec<(String, u32)>), String>)
    ensures
        r is Ok <==> spec_request_accepted(raw@),
        r matches Ok(p) ==> p.0@ == crate::strutil::split_ws(spec_tokenize(raw@).0)[1],
        r matches Ok(p) ==> pairs_view(p.1@) == crate::http_object::spec_weighted(
            spec_tokenize(raw@).1,
        ),
        r matches Err(e) ==> e@ == spec_request_error(raw@),
{
    let request = request_tokenizer(raw);
    if !request.is_http() {
        return Err("This is not an http request".to_owned());
    }
    let path = match request.request_path() {
        Some(p) => p,
        None => {
            return Err("This is not an http request".to_owned());
        },
    };
    let mimes = match request.weighted_mimes() {
        Ok(m) => m,
        Err(e) => {
            return Err(e);
        },
    };
    Ok((path, mimes))
}

/// The glob pattern for a request path: `/` asks for an index file of any
/// extension, a path with a dot is an exact filename, and any other path
/// matches as an extension-agnostic prefix.
pub open spec fn spec_parse_filepath(p: Seq<char>) -> Seq<char> {
    if p == "/"@ {
        "/index.*"@
    } else if p.contains('.') {
        p
    } else {
        p + "*"@
    }
}

/// Parses a request path into the glob pattern used to search the file
/// system, as `spec_parse_filepath` describes.
pub fn parse_filepath(filepath: &str) -> (r: String)
    ensures
        r@ == spec_parse_filepath(filepath@),
{
    if str_eq(filepath, "/") {
        "/index.*".to_owned()
    } else if contains_char(filepath, '.') {
        filepath.to_owned()
    } else {
        let mut s = filepath.to_owned();
        s.append("*");
        s
    }
}

/// Index of the last occurrence of `c` in `s`, or `-1` if there is none.
pub open spec fn last_index_of(s: Seq<char>, c: char) -> int
    decreases s.len(),
{
    if s.len() == 0 {
        -1
    } else if s[s.len() - 1] == c {
        s.len() - 1
    } else {
        last_index_of(s.drop_last(), c)
    }
}

pub proof fn lemma_last_index_of_bounds(s: Seq<char>, c: char)
    ensures
        -1 <= last_index_of(s, c) < s.len(),
    decreases s.len(),
{
    if s.len() > 0 && s[s.len() - 1] != c {
        lemma_last_index_of_bounds(s.drop_last(), c);
    }
}

/// `last_index_of` names the position of the last occurrence: the one
/// after which the character does not occur again.
pub proof fn lemma_last_index_of_at(s: Seq<char>, c: char, k: int)
    requires
        0 <= k < s.len(),
        s[k] == c,
        forall|j: int| k < j < s.len() ==> s[j] != c,
    ensures
        last_index_of(s, c) == k,
    decreases s.len(),
{
    if k < s.len() - 1 {
        assert(s[s.len() - 1] != c);
        lemma_last_index_of_at(s.drop_last(), c, k);
    }
}

/// A character that does not occur has no last index.
pub proof fn lemma_last_index_of_none(s: Seq<char>, c: char)
    requires
        forall|j: int| 0 <= j < s.len() ==> s[j] != c,
    ensures
        last_index_of(s, c) == -1,
    decreases s.len(),
{
    if s.len() > 0 {
        lemma_last_index_of_none(s.drop_last(), c);
    }
}

/// The extension of a file path: what follows the last dot, provided that
/// dot comes after the last path separator and does not begin the file
/// name.
pub open spec fn spec_extension(p: Seq<char>) -> Option<Seq<char>> {
    let dot = last_index_of(p, '.');
    let slash = last_index_of(p, '/');
    if dot > slash + 1 {
        Some(p.skip(dot + 1))
    } else {
        None
    }
}

/// Index of the last occurrence of `c` in `s`, if any.
#[verifier::loop_isolation(false)]
pub fn last_index_of_char(s: &str, c: char) -> (r: Option<usize>)
    ensures
        match r {
            Some(i) => last_index_of(s@, c) == i as int,
            None => last_index_of(s@, c) == -1,
        },
{
    let n = s.unicode_len();
    let mut i: usize = n;
    while i > 0
        invariant
            n == s@.len(),
            0 <= i <= n,
            forall|j: int| i <= j < n ==> s@[j] != c,
        decreases i,
    {
        if s.get_char(i - 1) == c {
            proof {
                lemma_last_index_of_at(s@, c, i - 1);
            }
            return Some(i - 1);
        }
        i = i - 1;
    }
    proof {
        lemma_last_index_of_none(s@, c);
    }
    None
}

/// The extension of a file path, as `spec_extension` describes.
pub fn extension_of(path: &str) -> (r: Option<String>)
    ensures
        r is Some <==> spec_extension(path@) is Some,
        r matches Some(e) ==> Some(e@) == spec_extension(path@),
{
    let n = path.unicode_len();
    proof {
        lemma_last_index_of_bounds(path@, '.');
        lemma_last_index_of_bounds(path@, '/');
    }
    let dot = match last_index_of_char(path, '.') {
        Some(d) => d,
        None => {
            return None;
        },
    };
    let ok = match last_index_of_char(path, '/') {
        Some(s) => s < dot && dot - s > 1,
        None => dot > 0,
    };
    if ok {
        Some(path.substring_char(dot + 1, n).to_owned())
    } else {
        None
    }
}

/// The weights in a candidate list, in order.
pub open spec fn cand_weights(v: Seq<(String, u32)>) -> Seq<int> {
    v.map_values(|c: (String, u32)| c.1 as int)
}

/// The weights in a scored-candidate view, in order.
pub open spec fn scored_weights(s: Seq<(Seq<char>, int)>) -> Seq<int> {
    s.map_values(|c: (Seq<char>, int)| c.1)
}

/// The weight of the first `*/*` entry of the accept table, or `0` when
/// the table has none.
pub open spec fn spec_default_weight(ms: Seq<(Seq<char>, int)>) -> int
    decreases ms.len(),
{
    if ms.len() == 0 {
        0
    } else if ms[0].0 == "*/*"@ {
        ms[0].1
    } else {
        spec_default_weight(ms.skip(1))
    }
}

/// Returns the default weight for the accept table: the weight of its
/// first `*/*` entry, or `0` without one.
#[verifier::loop_isolation(false)]
pub fn default_weight(mimes: &Vec<(String, u32)>) -> (r: u32)
    ensures
        r as int == spec_default_weight(pairs_view(mimes@)),
{
    let ghost mv = pairs_view(mimes@);
    let mut i: usize = 0;
    assert(mv.skip(0) =~= mv);
    while i < mimes.len()
        invariant
            mv == pairs_view(mimes@),
            mv.len() == mimes@.len(),
            0 <= i <= mv.len(),
            spec_default_weight(mv) == spec_default_weight(mv.skip(i as int)),
        decreases mv.len() - i,
    {
        assert(mv.skip(i as int)[0] == mv[i as int]);
        assert(mv.skip(i as int).skip(1) =~= mv.skip(i + 1));
        if str_eq(mimes[i].0.as_str(), "*/*") {
            return mimes[i].1;
        }
        i = i + 1;
    }
    assert(mv.skip(i as int) =~= Seq::<(Seq<char>, int)>::empty());
    0
}

/// The weight of the first accept entry whose subtype (the part after its
/// `/`) equals the extension; entries without a `/` never match.
pub open spec fn spec_find_weight(ext: Seq<char>, ms: Seq<(Seq<char>, int)>) -> Option<int>
    decreases ms.len(),
{
    if ms.len() == 0 {
        None
    } else if has_sub(ms[0].0, "/"@) && split_on(ms[0].0, "/"@)[1] == ext {
        Some(ms[0].1)
    } else {
        spec_find_weight(ext, ms.skip(1))
    }
}

/// Finds the weight declared for a specific file extension, as
/// `spec_find_weight` describes.
#[verifier::loop_isolation(false)]
pub fn find_weight_for_mime(extension: &str, mimes: &Vec<(String, u32)>) -> (r: Option<u32>)
    ensures
        r is Some <==> spec_find_weight(extension@, pairs_view(mimes@)) is Some,
        r matches Some(w) ==> Some(w as int) == spec_find_weight(extension@, pairs_view(mimes@)),
{
    let ghost mv = pairs_view(mimes@);
    proof {
        reveal_strlit("/");
    }
    let mut i: usize = 0;
    assert(mv.skip(0) =~= mv);
    while i < mimes.len()
        invariant
            mv == pairs_view(mimes@),
            mv.len() == mimes@.len(),
            0 <= i <= mv.len(),
            spec_find_weight(extension@, mv) == spec_find_weight(extension@, mv.skip(i as int)),
        decreases mv.len() - i,
    {
        assert(mv.skip(i as int)[0] == mv[i as int]);
        assert(mv.skip(i as int).skip(1) =~= mv.skip(i + 1));
        let entry = &mimes[i];
        proof {
            lemma_split_on_has(entry.0@, "/"@);
        }
        let parts = split_str(entry.0.as_str(), "/");
        if parts.len() >= 2 {
            assert(parts.deep_view()[1] == split_on(mv[i as int].0, "/"@)[1]);
            if str_eq(parts[1].as_str(), extension) {
                return Some(entry.1);
            }
        }
        i = i + 1;
    }
    assert(mv.skip(i as int) =~= Seq::<(Seq<char>, int)>::empty());
    None
}

/// The score of a candidate with the given extension: its declared weight
/// if the accept table names the extension, else the default weight.
pub open spec fn spec_score(ext: Seq<char>, ms: Seq<(Seq<char>, int)>) -> int {
    match spec_find_weight(ext, ms) {
        Some(w) => w,
        None => spec_default_weight(ms),
    }
}

/// The scored candidate list for a path list: every path that has an
/// extension, in order, paired with its score; paths without an extension
/// are dropped.
pub open spec fn spec_scored(ps: Seq<Seq<char>>, ms: Seq<(Seq<char>, int)>) -> Seq<
    (Seq<char>, int),
>
    decreases ps.len(),
{
    if ps.len() == 0 {
        Seq::empty()
    } else {
        let rest = spec_scored(ps.skip(1), ms);
        match spec_extension(ps[0]) {
            Some(e) => seq![(ps[0], spec_score(e, ms))] + rest,
            None => rest,
        }
    }
}

/// Appends one globbed path to the candidate list: a path with an
/// extension is scored against the accept table; one without is dropped.
pub fn append_to_matching_files(
    matching_files: &mut Vec<(String, u32)>,
    path: &str,
    accepted_mimes: &Vec<(String, u32)>,
)
    ensures
        pairs_view(final(matching_files)@) == pairs_view(old(matching_files)@) + spec_scored(
            seq![path@],
            pairs_view(accepted_mimes@),
        ),
{
    let ghost ms = pairs_view(accepted_mimes@);
    assert(seq![path@].skip(1) =~= Seq::<Seq<char>>::empty());
    assert(spec_scored(Seq::<Seq<char>>::empty(), ms) == Seq::<(Seq<char>, int)>::empty());
    assert(seq![path@][0] == path@);
    match extension_of(path) {
        Some(ext) => {
            let w = match find_weight_for_mime(ext.as_str(), accepted_mimes) {
                Some(w) => w,
                None => default_weight(accepted_mimes),
            };
            assert(spec_extension(path@) == Some(ext@));
            assert(w as int == spec_score(ext@, ms));
            assert(spec_scored(seq![path@], ms) =~= seq![(path@, spec_score(ext@, ms))]);
            let ghost prev = pairs_view(matching_files@);
            matching_files.push((path.to_owned(), w));
            assert(pairs_view(matching_files@) =~= prev + seq![(path@, w as int)]);
            assert(prev + seq![(path@, w as int)] =~= prev + spec_scored(seq![path@], ms));
        },
        None => {
            assert(spec_extension(path@) is None);
            assert(spec_scored(seq![path@], ms) =~= Seq::<(Seq<char>, int)>::empty());
            assert(pairs_view(matching_files@) + spec_scored(seq![path@], ms) =~= pairs_view(
                matching_files@,
            ));
        },
    }
}

/// The index of the greatest weight, with ties resolved in favor of the
/// first candidate: a later candidate replaces the running best only when
/// its weight is strictly greater.
pub open spec fn first_max_idx(ws: Seq<int>) -> int
    decreases ws.len(),
{
    if ws.len() <= 1 {
        0
    } else {
        let r = first_max_idx(ws.drop_last());
        if ws[ws.len() - 1] > ws[r] {
            ws.len() - 1
        } else {
            r
        }
    }
}

/// The selected index carries the maximum weight, and every earlier
/// candidate's weight is strictly smaller: ties go to the first candidate.
pub proof fn lemma_first_max_idx(ws: Seq<int>)
    requires
        ws.len() >= 1,
    ensures
        0 <= first_max_idx(ws) < ws.len(),
        forall|k: int| 0 <= k < ws.len() ==> #[trigger] ws[k] <= ws[first_max_idx(ws)],
        forall|k: int| 0 <= k < first_max_idx(ws) ==> #[trigger] ws[k] < ws[first_max_idx(ws)],
    decreases ws.len(),
{
    if ws.len() > 1 {
        lemma_first_max_idx(ws.drop_last());
        assert(forall|k: int| 0 <= k < ws.len() - 1 ==> ws[k] == ws.drop_last()[k]);
    }
}

/// Returns the path of the best matching file: the candidate with the
/// strictly greatest weight, the first such one when weights tie.
#[verifier::loop_isolation(false)]
pub fn best_match(matching_files: &Vec<(String, u32)>) -> (r: String)
    requires
        matching_files@.len() >= 1,
    ensures
        r@ == matching_files@[first_max_idx(cand_weights(matching_files@))].0@,
{
    let ghost wv = cand_weights(matching_files@);
    let mut best: usize = 0;
    let mut best_weight: u32 = matching_files[0].1;
    let mut i: usize = 1;
    assert(wv.take(1).len() == 1);
    while i < matching_files.len()
        invariant
            wv == cand_weights(matching_files@),
            wv.len() == matching_files@.len(),
            1 <= i <= wv.len(),
            0 <= best < i,
            best == first_max_idx(wv.take(i as int)),
            best_weight == matching_files@[best as int].1,
        decreases wv.len() - i,
    {
        assert(wv.take(i + 1).drop_last() =~= wv.take(i as int));
        assert(wv.take(i + 1)[i as int] == wv[i as int]);
        if matching_files[i].1 > best_weight {
            best = i;
            best_weight = matching_files[i].1;
        }
        i = i + 1;
    }
    assert(wv.take(i as int) =~= wv);
    matching_files[best].0.clone()
}

/// The media type reported for the winning file: the guessed type when the
/// accept table lists it verbatim, else `*/*`.
pub open spec fn spec_correct_mime(m: Seq<char>, ms: Seq<(Seq<char>, int)>) -> Seq<char>
    decreases ms.len(),
{
    if ms.len() == 0 {
        "*/*"@
    } else if ms[0].0 == m {
        m
    } else {
        spec_correct_mime(m, ms.skip(1))
    }
}

/// Resolves the served media type, as `spec_correct_mime` describes.
#[verifier::loop_isolation(false)]
pub fn correct_mime(mime: &str, accepted_mimes: &Vec<(String, u32)>) -> (r: String)
    ensures
        r@ == spec_correct_mime(mime@, pairs_view(accepted_mimes@)),
{
    let ghost mv = pairs_view(accepted_mimes@);
    let mut i: usize = 0;
    assert(mv.skip(0) =~= mv);
    while i < accepted_mimes.len()
        invariant
            mv == pairs_view(accepted_mimes@),
            mv.len() == accepted_mimes@.len(),
            0 <= i <= mv.len(),
            spec_correct_mime(mime@, mv) == spec_correct_mime(mime@, mv.skip(i as int)),
        decreases mv.len() - i,
    {
        assert(mv.skip(i as int)[0] == mv[i as int]);
        assert(mv.skip(i as int).skip(1) =~= mv.skip(i + 1));
        if str_eq(accepted_mimes[i].0.as_str(), mime) {
            return mime.to_owned();
        }
        i = i + 1;
    }
    assert(mv.skip(i as int) =~= Seq::<(Seq<char>, int)>::empty());
    "*/*".to_owned()
}

/// The media type guessed for a file path.
pub uninterp spec fn mime_of(path: Seq<char>) -> Seq<char>;

/// Relies on `mime_guess::from_path` with `first_or_octet_stream`: the
/// guess is a static table lookup on the path's extension, a function of
/// the path characters alone.
#[verifier::external_body]
fn guess_mime(path: &str) -> (r: String)
    ensures
        r@ == mime_of(path@),
{
    mime_guess::from_path(path).first_or_octet_stream().to_string()
}

/// Relies on `glob::glob`: expands a shell-style pattern against the file
/// system.  What it yields depends on the disk, so nothing is assumed of
/// the result; entries that cannot be read are skipped, and an invalid
/// pattern yields no candidates.
#[verifier::external_body]
fn glob_paths(pattern: &str) -> (r: Vec<String>) {
    let mut out = Vec::new();
    if let Ok(entries) = glob::glob(pattern) {
        for entry in entries {
            if let Ok(path) = entry {
                out.push(path.to_string_lossy().into_owned());
            }
        }
    }
    out
}

/// Scores a list of candidate paths and picks the best match together
/// with its served media type.  Yields nothing exactly when no path
/// carries an extension, and never fails on an empty list.
#[verifier::loop_isolation(false)]
pub fn select_file(paths: &Vec<String>, accepted_mimes: &Vec<(String, u32)>) -> (r: Option<
    (String, String),
>)
    ensures
        r is Some <==> spec_scored(paths.deep_view(), pairs_view(accepted_mimes@)).len() >= 1,
        r matches Some(pm) ==> {
            let scored = spec_scored(paths.deep_view(), pairs_view(accepted_mimes@));
            let j = first_max_idx(scored_weights(scored));
            &&& pm.0@ == scored[j].0
            &&& pm.1@ == spec_correct_mime(mime_of(scored[j].0), pairs_view(accepted_mimes@))
        },
{
    let ghost pv = paths.deep_view();
    let ghost ms = pairs_view(accepted_mimes@);
    let mut matching_files: Vec<(String, u32)> = Vec::new();
    let mut i: usize = 0;
    assert(pv.skip(0) =~= pv);
    assert(pairs_view(matching_files@) + spec_scored(pv, ms) =~= spec_scored(pv, ms));
    while i < paths.len()
        invariant
            pv == paths.deep_view(),
            ms == pairs_view(accepted_mimes@),
            pv.len() == paths@.len(),
            0 <= i <= pv.len(),
            spec_scored(pv, ms) == pairs_view(matching_files@) + spec_scored(
                pv.skip(i as int),
                ms,
            ),
        decreases pv.len() - i,
    {
        assert(pv.skip(i as int)[0] == pv[i as int]);
        assert(pv.skip(i as int).skip(1) =~= pv.skip(i + 1));
        let ghost prev = pairs_view(matching_files@);
        append_to_matching_files(&mut matching_files, paths[i].as_str(), accepted_mimes);
        proof {
            vstd::seq_lib::lemma_concat_associative(
                prev,
                spec_scored(seq![pv[i as int]], ms),
                spec_scored(pv.skip(i + 1), ms),
            );
            assert(spec_scored(seq![pv[i as int]], ms) + spec_scored(pv.skip(i + 1), ms)
                =~= spec_scored(pv.skip(i as int), ms)) by {
                assert(seq![pv[i as int]].skip(1) =~= Seq::<Seq<char>>::empty());
                assert(seq![pv[i as int]][0] == pv[i as int]);
                assert(spec_scored(Seq::<Seq<char>>::empty(), ms) == Seq::<(
                    Seq<char>,
                    int,
                )>::empty());
            }
        }
        i = i + 1;
    }
    assert(pv.skip(i as int) =~= Seq::<Seq<char>>::empty());
    assert(pairs_view(matching_files@) =~= spec_scored(pv, ms));
    let ghost scored = spec_scored(pv, ms);
    if matching_files.len() == 0 {
        assert(pairs_view(matching_files@).len() == 0);
        return None;
    }
    assert(cand_weights(matching_files@) =~= scored_weights(scored));
    proof {
        lemma_first_max_idx(scored_weights(scored));
    }
    let used_file = best_match(&matching_files);
    assert(used_file@ == scored[first_max_idx(scored_weights(scored))].0);
    let used_mime = guess_mime(used_file.as_str());
    let corrected = correct_mime(used_mime.as_str(), accepted_mimes);
    Some((used_file, corrected))
}

/// Searches the `public` static root for the file that best matches the
/// request path under the negotiated weights.  Returns the winning path
/// and its served media type; the shell around the library reads the
/// file's bytes.  What the glob yields depends on the disk, so only the
/// media-type rule is stated of a successful result.
///
/// Warning: parent-directory segments in the request path are not
/// rejected before glob expansion, so a crafted path can reach outside
/// the static root.
pub fn file_browser(filepath: &str, accepted_mimes: &Vec<(String, u32)>) -> (r: Option<
    (String, String),
>)
    ensures
        r matches Some(pm) ==> pm.1@ == spec_correct_mime(
            mime_of(pm.0@),
            pairs_view(accepted_mimes@),
        ),
{
    let mut pattern = "public".to_owned();
    let parsed = parse_filepath(filepath);
    pattern.append(parsed.as_str());
    let paths = glob_paths(pattern.as_str());
    select_file(&paths, accepted_mimes)
}

} // verus!
