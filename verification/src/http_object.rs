//! The parsed form of an incoming request: its request line and its
//! `Accept` header line, with the weighted content-negotiation table
//! extracted from them.
//!
//! Weights are q-values; they are held in tenths (`10` stands for the
//! default weight `1.0`, `9` for `0.9`), since a weight field spans exactly
//! three characters in the form `d.d`.

use vstd::prelude::*;
use vstd::string::*;

use crate::strutil::has_sub;
use crate::strutil::lemma_split_on_has;
use crate::strutil::spec_starts_with;
use crate::strutil::split_on;
use crate::strutil::split_str;
use crate::strutil::split_whitespace;
use crate::strutil::split_ws;
use crate::strutil::str_eq;
use crate::strutil::str_starts_with;

verus! {

/// Holds the attributes of an incoming HTTP request.
pub struct HttpObject {
    pub request: String,
    pub accept: String,
}

/// The media types of `v`, paired with their weights, as character
/// sequences and weights in tenths.
pub open spec fn pairs_view(v: Seq<(String, u32)>) -> Seq<(Seq<char>, int)> {
    v.map_values(|p: (String, u32)| (p.0@, p.1 as int))
}

/// A valid request line has at least three whitespace-separated tokens,
/// the third being `HTTP/1.1`.
pub open spec fn spec_is_http(req: Seq<char>) -> bool {
    let t = split_ws(req);
    t.len() >= 3 && t[2] == "HTTP/1.1"@
}

/// The header line is non-empty and names the `Accept` attribute.
pub open spec fn accept_header_named(a: Seq<char>) -> bool {
    a.len() > 0 && (spec_starts_with(a, "Accept:"@) || spec_starts_with(a, "accept:"@))
}

/// The part of the header after the first `": "`.
pub open spec fn accept_value(a: Seq<char>) -> Seq<char> {
    split_on(a, ": "@)[1]
}

/// The header value split on `;`: one segment per declared type group,
/// with the weight of a group prefixed to the segment that follows it.
pub open spec fn type_segments(a: Seq<char>) -> Seq<Seq<char>> {
    split_on(accept_value(a), ";"@)
}

/// Every segment that must carry a six-character weight prefix is long
/// enough for it to be stripped.
pub open spec fn types_segments_ok(a: Seq<char>) -> bool {
    type_segments(a).len() == 1 || forall|i: int|
        1 <= i < type_segments(a).len() - 1 ==> (#[trigger] type_segments(a)[i]).len() >= 6
}

/// The comma-joined type lists of the header, in declaration order: the
/// trailing segment is dropped and the fixed-width `q=` weight prefix is
/// stripped from every segment after the first.
pub open spec fn spec_types(a: Seq<char>) -> Seq<Seq<char>> {
    let v = accept_value(a);
    let segs = type_segments(a);
    if segs.len() == 1 {
        seq![v]
    } else {
        Seq::new((segs.len() - 1) as nat, |i: int| if i == 0 { segs[0] } else { segs[i].skip(6) })
    }
}

/// The header split on the literal `q=`; each part after the first starts
/// with a weight field.
pub open spec fn weight_parts(a: Seq<char>) -> Seq<Seq<char>> {
    split_on(a, "q="@)
}

pub open spec fn is_digit_char(c: char) -> bool {
    48 <= c as u32 <= 57
}

pub open spec fn digit_val(c: char) -> int {
    c as u32 - 48
}

/// A weight field: three characters of the form `d.d`.
pub open spec fn valid_weight_part(t: Seq<char>) -> bool {
    t.len() >= 3 && is_digit_char(t[0]) && t[1] == '.' && is_digit_char(t[2])
}

/// The value of a `d.d` weight field, in tenths.
pub open spec fn weight_of_part(t: Seq<char>) -> int {
    10 * digit_val(t[0]) + digit_val(t[2])
}

/// Every `q=` occurrence is followed by a well-formed weight field.
pub open spec fn weights_ok(a: Seq<char>) -> bool {
    !has_sub(a, "q="@) || forall|i: int|
        1 <= i < weight_parts(a).len() ==> valid_weight_part(#[trigger] weight_parts(a)[i])
}

/// The extracted weights, in tenths.  With no `q=` occurrence at all,
/// every one of the `amount` listed types defaults to weight `1.0`.
pub open spec fn spec_weights(a: Seq<char>, amount: nat) -> Seq<int> {
    if !has_sub(a, "q="@) {
        Seq::new(amount, |i: int| 10)
    } else {
        Seq::new((weight_parts(a).len() - 1) as nat, |i: int| weight_of_part(weight_parts(a)[i + 1]))
    }
}

/// The media types inside one comma-joined segment, each paired with the
/// segment's weight.
pub open spec fn pair_seg(t: Seq<char>, w: int) -> Seq<(Seq<char>, int)> {
    split_on(t, ","@).map_values(|piece: Seq<char>| (piece, w))
}

/// Pairs each type segment with its weight and flattens the result,
/// preserving declaration order.
pub open spec fn flatten_pairs(types: Seq<Seq<char>>, ws: Seq<int>) -> Seq<(Seq<char>, int)>
    decreases types.len(),
{
    if types.len() == 0 {
        Seq::empty()
    } else {
        pair_seg(types[0], ws[0]) + flatten_pairs(types.skip(1), ws.skip(1))
    }
}

/// The whole `Accept` header parses: it is named, carries a `": "`, its
/// segments can bear their weight prefixes, its weight fields are well
/// formed, and there is a weight for every type segment.
pub open spec fn accept_ok(a: Seq<char>) -> bool {
    accept_header_named(a) && has_sub(a, ": "@) && types_segments_ok(a) && weights_ok(a)
        && spec_weights(a, spec_types(a).len()).len() >= spec_types(a).len()
}

/// The full negotiation table of the header, in declaration order.
pub open spec fn spec_weighted(a: Seq<char>) -> Seq<(Seq<char>, int)> {
    flatten_pairs(spec_types(a), spec_weights(a, spec_types(a).len()))
}

/// The error reported for a header that does not parse.
pub open spec fn spec_accept_error(a: Seq<char>) -> Seq<char> {
    if !accept_header_named(a) {
        "No accept attribute found"@
    } else if !(has_sub(a, ": "@) && types_segments_ok(a)) {
        "Malformed accept attribute"@
    } else {
        "Malformed accept weights"@
    }
}

/// Weight defaulting: in a header that parses and has no `q=` occurrence
/// at all, every extracted media type receives the default weight `1.0`
/// (ten tenths).
pub proof fn lemma_weight_defaulting(a: Seq<char>)
    requires
        accept_ok(a),
        !has_sub(a, "q="@),
    ensures
        forall|k: int| 0 <= k < spec_weighted(a).len() ==> (#[trigger] spec_weighted(a)[k]).1 == 10,
{
    let types = spec_types(a);
    let ws = spec_weights(a, types.len());
    assert(forall|i: int| 0 <= i < ws.len() ==> #[trigger] ws[i] == 10);
    lemma_flatten_pairs_default(types, ws);
}

proof fn lemma_flatten_pairs_default(types: Seq<Seq<char>>, ws: Seq<int>)
    requires
        forall|i: int| 0 <= i < ws.len() ==> #[trigger] ws[i] == 10,
        types.len() <= ws.len(),
    ensures
        forall|k: int|
            0 <= k < flatten_pairs(types, ws).len() ==> (#[trigger] flatten_pairs(types, ws)[k]).1
                == 10,
    decreases types.len(),
{
    if types.len() > 0 {
        assert(forall|i: int|
            0 <= i < ws.len() - 1 ==> #[trigger] ws.skip(1)[i] == ws[i + 1]);
        lemma_flatten_pairs_default(types.skip(1), ws.skip(1));
        let seg = pair_seg(types[0], ws[0]);
        let rest = flatten_pairs(types.skip(1), ws.skip(1));
        assert(forall|k: int| 0 <= k < seg.len() ==> (#[trigger] seg[k]).1 == ws[0]);
        assert forall|k: int| 0 <= k < flatten_pairs(types, ws).len() implies (
        #[trigger] flatten_pairs(types, ws)[k]).1 == 10 by {
            if k < seg.len() {
                assert(flatten_pairs(types, ws)[k] == seg[k]);
            } else {
                assert(flatten_pairs(types, ws)[k] == rest[k - seg.len()]);
            }
        }
    }
}

impl HttpObject {
    /// Initializes a new `HttpObject` from a request line and an `Accept`
    /// header line.
    pub fn new(request: String, accept: String) -> (r: HttpObject)
        ensures
            r.request@ == request@,
            r.accept@ == accept@,
    {
        HttpObject { request, accept }
    }

    /// Whether the stored request line is a valid HTTP/1.1 request line:
    /// at least three whitespace-separated tokens with `HTTP/1.1` third.
    pub fn is_http(&self) -> (r: bool)
        ensures
            r == spec_is_http(self.request@),
    {
        let tokens = split_whitespace(self.request.as_str());
        if tokens.len() >= 3 {
            str_eq(tokens[2].as_str(), "HTTP/1.1")
        } else {
            false
        }
    }

    /// The request path: the second whitespace-separated token of the
    /// request line, if the line has one.
    pub fn request_path(&self) -> (r: Option<String>)
        ensures
            r is Some <==> split_ws(self.request@).len() >= 2,
            r matches Some(p) ==> p@ == split_ws(self.request@)[1],
    {
        let tokens = split_whitespace(self.request.as_str());
        if tokens.len() >= 2 {
            Some(tokens[1].clone())
        } else {
            None
        }
    }

    /// Whether the accept attribute is present: a non-empty line beginning
    /// with `Accept:` or `accept:`.
    pub fn accept_is_valid(&self) -> (r: bool)
        ensures
            r == accept_header_named(self.accept@),
    {
        self.accept.unicode_len() > 0 && (str_starts_with(self.accept.as_str(), "Accept:")
            || str_starts_with(self.accept.as_str(), "accept:"))
    }

    /// Extracts the comma-joined type lists from the accept attribute, in
    /// declaration order, or fails on a header whose segments cannot bear
    /// their weight prefixes.
    #[verifier::loop_isolation(false)]
    pub fn extract_types(&self) -> (r: Result<Vec<String>, String>)
        ensures
            r is Ok <==> has_sub(self.accept@, ": "@) && types_segments_ok(self.accept@),
            r matches Ok(v) ==> v.deep_view() == spec_types(self.accept@),
            r matches Err(e) ==> e@ == "Malformed accept attribute"@,
    {
        let ghost a = self.accept@;
        proof {
            reveal_strlit(": ");
            reveal_strlit(";");
            lemma_split_on_has(a, ": "@);
        }
        let halves = split_str(self.accept.as_str(), ": ");
        if halves.len() < 2 {
            return Err("Malformed accept attribute".to_owned());
        }
        let value = &halves[1];
        assert(value@ == accept_value(a));
        let segs = split_str(value.as_str(), ";");
        let ghost sv = segs.deep_view();
        assert(sv == type_segments(a));
        if segs.len() == 1 {
            let r = vec![value.clone()];
            assert(r.deep_view() =~= spec_types(a));
            return Ok(r);
        }
        let mut out: Vec<String> = Vec::new();
        out.push(segs[0].clone());
        let mut i: usize = 1;
        assert(out.deep_view() =~= Seq::new(1, |j: int| if j == 0 {
            sv[0]
        } else {
            sv[j].skip(6)
        }));
        while i < segs.len() - 1
            invariant
                sv == type_segments(a),
                sv == segs.deep_view(),
                sv.len() == segs@.len(),
                2 <= segs@.len(),
                1 <= i <= segs@.len() - 1,
                forall|j: int| 1 <= j < i ==> (#[trigger] sv[j]).len() >= 6,
                out.deep_view() =~= Seq::new(i as nat, |j: int| if j == 0 {
                    sv[0]
                } else {
                    sv[j].skip(6)
                }),
            decreases segs@.len() - i,
        {
            let seg = &segs[i];
            let len = seg.unicode_len();
            if len < 6 {
                assert(seg@ == sv[i as int]);
                assert((type_segments(a)[i as int]).len() < 6);
                assert(!types_segments_ok(a));
                return Err("Malformed accept attribute".to_owned());
            }
            let stripped = seg.substring_char(6, len).to_owned();
            assert(stripped@ == sv[i as int].skip(6));
            let ghost old_out = out.deep_view();
            out.push(stripped);
            assert(out.deep_view() =~= old_out + seq![sv[i as int].skip(6)]);
            assert(old_out + seq![sv[i as int].skip(6)] =~= Seq::new((i + 1) as nat, |j: int| if j
                == 0 {
                sv[0]
            } else {
                sv[j].skip(6)
            }));
            i = i + 1;
        }
        assert(types_segments_ok(a));
        assert(out.deep_view() =~= spec_types(a));
        Ok(out)
    }

    /// Extracts the weights from the accept attribute, in tenths, in the
    /// order their `q=` markers appear.  With no `q=` occurrence, `amount`
    /// default weights of `1.0` are produced.
    #[verifier::loop_isolation(false)]
    pub fn extract_weights(&self, amount: usize) -> (r: Result<Vec<u32>, String>)
        ensures
            r is Ok <==> weights_ok(self.accept@),
            r matches Ok(v) ==> v@.map_values(|w: u32| w as int) == spec_weights(
                self.accept@,
                amount as nat,
            ),
            r matches Err(e) ==> e@ == "Malformed accept weights"@,
    {
        let ghost a = self.accept@;
        proof {
            reveal_strlit("q=");
            lemma_split_on_has(a, "q="@);
        }
        let parts = split_str(self.accept.as_str(), "q=");
        let ghost pv = parts.deep_view();
        assert(pv == weight_parts(a));
        if parts.len() == 1 {
            assert(!has_sub(a, "q="@));
            let mut out: Vec<u32> = Vec::new();
            let mut i: usize = 0;
            while i < amount
                invariant
                    0 <= i <= amount,
                    out@.len() == i,
                    forall|k: int| 0 <= k < i ==> out@[k] == 10u32,
                decreases amount - i,
            {
                out.push(10u32);
                i = i + 1;
            }
            assert(out@.map_values(|w: u32| w as int) =~= spec_weights(a, amount as nat));
            return Ok(out);
        }
        assert(has_sub(a, "q="@));
        let mut out: Vec<u32> = Vec::new();
        let mut i: usize = 1;
        while i < parts.len()
            invariant
                has_sub(a, "q="@),
                pv == weight_parts(a),
                pv == parts.deep_view(),
                pv.len() == parts@.len(),
                2 <= parts@.len(),
                1 <= i <= parts@.len(),
                forall|j: int| 1 <= j < i ==> valid_weight_part(#[trigger] pv[j]),
                out@.map_values(|w: u32| w as int) =~= Seq::new((i - 1) as nat, |k: int|
                    weight_of_part(pv[k + 1]),
                ),
            decreases parts@.len() - i,
        {
            let part = &parts[i];
            if part.unicode_len() < 3 {
                assert(part@ == pv[i as int]);
                assert(!valid_weight_part(weight_parts(a)[i as int]));
                assert(!weights_ok(a));
                return Err("Malformed accept weights".to_owned());
            }
            let c0 = part.get_char(0);
            let c1 = part.get_char(1);
            let c2 = part.get_char(2);
            let d0 = c0 as u32;
            let d2 = c2 as u32;
            if d0 < 48 || d0 > 57 || c1 != '.' || d2 < 48 || d2 > 57 {
                assert(part@ == pv[i as int]);
                assert(!valid_weight_part(weight_parts(a)[i as int]));
                assert(!weights_ok(a));
                return Err("Malformed accept weights".to_owned());
            }
            assert(part@ == pv[i as int]);
            assert(valid_weight_part(pv[i as int]));
            let w = (d0 - 48) * 10 + (d2 - 48);
            assert(w as int == weight_of_part(pv[i as int]));
            let ghost old_map = out@.map_values(|x: u32| x as int);
            out.push(w);
            assert(out@.map_values(|x: u32| x as int) =~= old_map + seq![w as int]);
            assert(old_map + seq![w as int] =~= Seq::new(i as nat, |k: int|
                weight_of_part(pv[k + 1]),
            ));
            i = i + 1;
        }
        assert(weights_ok(a));
        assert(out@.map_values(|w: u32| w as int) =~= spec_weights(a, amount as nat));
        Ok(out)
    }

    /// Pairs each comma-separated media type of every type segment with
    /// that segment's weight, preserving declaration order.
    #[verifier::loop_isolation(false)]
    #[verifier::rlimit(30)]
    pub fn connect_types_to_weights(&self, types: &Vec<String>, weights: &Vec<u32>) -> (r: Vec<
        (String, u32),
    >)
        requires
            weights@.len() >= types@.len(),
        ensures
            pairs_view(r@) == flatten_pairs(
                types.deep_view(),
                weights@.map_values(|w: u32| w as int),
            ),
    {
        proof {
            reveal_strlit(",");
        }
        let ghost tv = types.deep_view();
        let ghost wv = weights@.map_values(|w: u32| w as int);
        let mut out: Vec<(String, u32)> = Vec::new();
        assert(tv.skip(0) =~= tv);
        assert(wv.skip(0) =~= wv);
        assert(pairs_view(out@) + flatten_pairs(tv, wv) =~= flatten_pairs(tv, wv));
        let mut i: usize = 0;
        while i < types.len()
            invariant
                types@.len() <= weights@.len(),
                tv == types.deep_view(),
                wv == weights@.map_values(|w: u32| w as int),
                tv.len() == types@.len(),
                wv.len() == weights@.len(),
                0 <= i <= types@.len(),
                flatten_pairs(tv, wv) == pairs_view(out@) + flatten_pairs(
                    tv.skip(i as int),
                    wv.skip(i as int),
                ),
            decreases types@.len() - i,
        {
            let pieces = split_str(types[i].as_str(), ",");
            let w = weights[i];
            let ghost seg = pair_seg(tv[i as int], wv[i as int]);
            let ghost base = pairs_view(out@);
            assert(pieces.deep_view() == split_on(tv[i as int], ","@));
            assert(seg.len() == pieces@.len());
            let mut j: usize = 0;
            while j < pieces.len()
                invariant
                    0 <= j <= pieces@.len(),
                    0 <= i < tv.len(),
                    tv.len() <= wv.len(),
                    w as int == wv[i as int],
                    seg == pair_seg(tv[i as int], wv[i as int]),
                    pieces.deep_view() == split_on(tv[i as int], ","@),
                    seg.len() == pieces@.len(),
                    pairs_view(out@) =~= base + seg.take(j as int),
                decreases pieces@.len() - j,
            {
                let piece = pieces[j].clone();
                assert(piece@ == pieces.deep_view()[j as int]);
                assert(seg[j as int] == (pieces.deep_view()[j as int], wv[i as int]));
                let ghost prev = pairs_view(out@);
                out.push((piece, w));
                assert(pairs_view(out@) =~= prev + seq![seg[j as int]]);
                assert(seg.take(j + 1) =~= seg.take(j as int) + seq![seg[j as int]]);
                proof {
                    vstd::seq_lib::lemma_concat_associative(
                        base,
                        seg.take(j as int),
                        seq![seg[j as int]],
                    );
                }
                assert(pairs_view(out@) =~= base + seg.take(j + 1));
                j = j + 1;
            }
            assert(seg.take(seg.len() as int) =~= seg);
            assert(pairs_view(out@) =~= base + seg);
            assert(tv.skip(i as int).skip(1) =~= tv.skip(i + 1));
            assert(wv.skip(i as int).skip(1) =~= wv.skip(i + 1));
            assert(flatten_pairs(tv.skip(i as int), wv.skip(i as int)) == seg + flatten_pairs(
                tv.skip(i + 1),
                wv.skip(i + 1),
            ));
            proof {
                vstd::seq_lib::lemma_concat_associative(
                    base,
                    seg,
                    flatten_pairs(tv.skip(i + 1), wv.skip(i + 1)),
                );
            }
            i = i + 1;
        }
        assert(tv.skip(i as int) =~= Seq::<Seq<char>>::empty());
        assert(flatten_pairs(tv.skip(i as int), wv.skip(i as int)) =~= Seq::<(
            Seq<char>,
            int,
        )>::empty());
        assert(pairs_view(out@) + Seq::<(Seq<char>, int)>::empty() =~= pairs_view(out@));
        out
    }

    /// The full negotiation table of the accept attribute: every declared
    /// media type with its weight in tenths, in declaration order, or the
    /// error describing why the header does not parse.
    pub fn weighted_mimes(&self) -> (r: Result<Vec<(String, u32)>, String>)
        ensures
            r is Ok <==> accept_ok(self.accept@),
            r matches Ok(v) ==> pairs_view(v@) == spec_weighted(self.accept@),
            r matches Err(e) ==> e@ == spec_accept_error(self.accept@),
    {
        if !self.accept_is_valid() {
            return Err("No accept attribute found".to_owned());
        }
        let types = match self.extract_types() {
            Ok(t) => t,
            Err(e) => {
                return Err(e);
            },
        };
        let weights = match self.extract_weights(types.len()) {
            Ok(w) => w,
            Err(e) => {
                return Err(e);
            },
        };
        if weights.len() < types.len() {
            return Err("Malformed accept weights".to_owned());
        }
        assert(accept_ok(self.accept@)) by {
            assert(types.deep_view().len() == types@.len());
        }
        Ok(self.connect_types_to_weights(&types, &weights))
    }
}

} // verus!
