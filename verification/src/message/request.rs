//! Requests: a packet, the response that is being built for it, and where
//! it came from.

use vstd::prelude::*;
use vstd::utf8::{valid_utf8, decode_utf8, encode_utf8};
use crate::message::header::{Header, MessageClass, Requests};
use crate::message::packet::{Packet, PacketModel, CoAPOption, option_values};
use crate::message::response::CoAPResponse;
use crate::message::IsMessage;
use crate::router::route::{split_slash, slash_pred, first_index, lemma_first_index_bounds, find_slash};
use crate::router::response::utf8_bytes;
use crate::wire::lookup;

verus! {

/// The pieces of `segs` that are not empty, in order.
pub open spec fn nonempty_pieces(segs: Seq<Seq<char>>) -> Seq<Seq<char>>
    decreases segs.len(),
{
    if segs.len() == 0 {
        Seq::empty()
    } else {
        (if segs[0].len() > 0 { seq![segs[0]] } else { Seq::empty() }) + nonempty_pieces(segs.drop_first())
    }
}

/// The Uri-Path values of the path `path`: its non-empty pieces between
/// slashes, as UTF-8.
pub open spec fn uri_path_values(path: Seq<char>) -> Seq<Seq<u8>> {
    nonempty_pieces(split_slash(path)).map_values(|s: Seq<char>| encode_utf8(s))
}

/// The texts of the values that are UTF-8, in order.
pub open spec fn utf8_texts(values: Seq<Seq<u8>>) -> Seq<Seq<char>>
    decreases values.len(),
{
    if values.len() == 0 {
        Seq::empty()
    } else {
        (if valid_utf8(values[0]) { seq![decode_utf8(values[0])] } else { Seq::empty() }) + utf8_texts(values.drop_first())
    }
}

/// The texts joined with slashes.
pub open spec fn join_slash(texts: Seq<Seq<char>>) -> Seq<char>
    decreases texts.len(),
{
    if texts.len() == 0 {
        Seq::empty()
    } else if texts.len() == 1 {
        texts[0]
    } else {
        texts[0] + seq!['/'] + join_slash(texts.drop_first())
    }
}

/// Calls `std::str::from_utf8(bytes)`, which succeeds exactly on UTF-8 and
/// gives the text the bytes encode.
#[verifier::external_body]
pub(crate) fn utf8_text(bytes: &[u8]) -> (r: Option<String>)
    ensures
        r is Some <==> valid_utf8(bytes@),
        r matches Some(s) ==> s@ == decode_utf8(bytes@),
{
    std::str::from_utf8(bytes).ok().map(|s| s.to_string())
}

/// A request: its packet, the response that goes back for it (if any),
/// and its source.
pub struct CoAPRequest<Endpoint> {
    pub message: Packet,
    pub response: Option<CoAPResponse>,
    pub source: Option<Endpoint>,
}

impl<Endpoint> CoAPRequest<Endpoint> {
    /// An empty request: an empty packet, no response, no source.
    pub fn new() -> (r: CoAPRequest<Endpoint>)
        ensures
            r.message.header == (Header { ver_type_tkl: 0, code: MessageClass::Empty, message_id: 0 }),
            r.message.token@ == Seq::<u8>::empty(),
            r.message.options@ == Seq::<(usize, Seq<Seq<u8>>)>::empty(),
            r.message.payload@ == Seq::<u8>::empty(),
            r.response is None,
            r.source is None,
    {
        CoAPRequest { response: None, message: Packet::new(), source: None }
    }

    /// The request `packet` from `source`, with the response that
    /// `CoAPResponse::new` makes for it.
    pub fn from_packet(packet: Packet, source: Endpoint) -> (r: CoAPRequest<Endpoint>)
        requires
            (packet.token@.len() as u8) & 0xF0 == 0,
        ensures
            r.message@ == packet@,
            r.source == Some(source),
            r.response is Some <==> crate::message::response::response_type(
                crate::message::header::type_of(packet.header.ver_type_tkl),
            ) is Some,
    {
        let response = CoAPResponse::new(&packet);
        CoAPRequest { response, message: packet, source: Some(source) }
    }

    /// Sets the request method.
    pub fn set_method(&mut self, method: Requests)
        ensures
            final(self).message.header == (Header { code: MessageClass::RequestType(method), ..old(self).message.header }),
            final(self).message.token@ == old(self).message.token@,
            final(self).message.options@ == old(self).message.options@,
            final(self).message.payload@ == old(self).message.payload@,
            final(self).response == old(self).response,
            final(self).source == old(self).source,
    {
        self.message.header.code = MessageClass::RequestType(method);
    }

    /// The request method, if the code is that of a request.
    pub fn get_method(&self) -> (r: Option<Requests>)
        ensures
            r == match self.message.header.code {
                MessageClass::RequestType(m) => Some(m),
                _ => None,
            },
    {
        match self.message.header.code {
            MessageClass::RequestType(m) => Some(m),
            _ => None,
        }
    }

    /// Appends the Uri-Path values of `path[from..to]`.
    fn add_path_segments(&mut self, path: &str, from: usize, to: usize)
        requires
            from <= to <= path@.len(),
        ensures
            option_values(final(self).message.options@, 11) == option_values(old(self).message.options@, 11)
                + uri_path_values(path@.subrange(from as int, to as int)),
            (lookup(final(self).message.options@, 11) is Some) == (lookup(old(self).message.options@, 11) is Some
                || uri_path_values(path@.subrange(from as int, to as int)).len() > 0),
            forall|j: usize| j != 11 ==> lookup(final(self).message.options@, j) == lookup(old(self).message.options@, j),
            final(self).message.header == old(self).message.header,
            final(self).message.token@ == old(self).message.token@,
            final(self).message.payload@ == old(self).message.payload@,
            final(self).response == old(self).response,
            final(self).source == old(self).source,
        decreases to - from,
    {
        let ghost s = path@.subrange(from as int, to as int);
        let e = find_slash(path, from, to);
        proof {
            lemma_first_index_bounds(s, slash_pred());
        }
        let ghost segs = split_slash(s);
        let ghost first = path@.subrange(from as int, e as int);
        let ghost rest_segs = if e < to { split_slash(path@.subrange(e + 1, to as int)) } else { Seq::empty() };
        proof {
            if e < to {
                assert(s.take(e - from) =~= first);
                assert(s.skip(e - from + 1) =~= path@.subrange(e + 1, to as int));
                assert(segs =~= seq![first] + rest_segs);
            } else {
                assert(s =~= first);
                assert(segs =~= seq![first] + rest_segs);
            }
            assert(segs[0] == first);
            assert(segs.drop_first() =~= rest_segs);
        }
        let ghost v0 = option_values(self.message.options@, 11);
        if e > from {
            let seg = path.substring_char(from, e);
            self.message.add_option(CoAPOption::UriPath, utf8_bytes(seg));
        }
        if e < to {
            self.add_path_segments(path, e + 1, to);
        }
        proof {
            let here: Seq<Seq<char>> = if first.len() > 0 { seq![first] } else { Seq::empty() };
            assert(nonempty_pieces(segs) == here + nonempty_pieces(rest_segs));
            if e >= to {
                assert(nonempty_pieces(rest_segs) =~= Seq::<Seq<char>>::empty());
            }
            assert(uri_path_values(s) =~= here.map_values(|x: Seq<char>| encode_utf8(x)) + nonempty_pieces(rest_segs).map_values(
                |x: Seq<char>| encode_utf8(x),
            ));
            assert(option_values(self.message.options@, 11) =~= v0 + uri_path_values(s));
        }
    }

    /// Sets the path: the Uri-Path values become the non-empty pieces of
    /// `path` between slashes.
    pub fn set_path(&mut self, path: &str)
        ensures
            option_values(final(self).message.options@, 11) == uri_path_values(path@),
            forall|j: usize| j != 11 ==> lookup(final(self).message.options@, j) == lookup(old(self).message.options@, j),
            final(self).message.header == old(self).message.header,
            final(self).message.token@ == old(self).message.token@,
            final(self).message.payload@ == old(self).message.payload@,
            final(self).response == old(self).response,
            final(self).source == old(self).source,
    {
        self.message.clear_option(CoAPOption::UriPath);
        let n = path.unicode_len();
        proof {
            assert(path@.subrange(0, n as int) =~= path@);
            assert(option_values(self.message.options@, 11) =~= Seq::<Seq<u8>>::empty());
        }
        self.add_path_segments(path, 0, n);
    }

    /// The path: the Uri-Path values that are UTF-8, joined with slashes.
    pub fn get_path(&self) -> (r: String)
        ensures
            r@ == join_slash(utf8_texts(option_values(self.message.options@, 11))),
    {
        let mut texts: Vec<String> = Vec::new();
        let ghost vals = option_values(self.message.options@, 11);
        match self.message.get_option(CoAPOption::UriPath) {
            Some(options) => {
                let mut i: usize = 0;
                while i < options.len()
                    invariant
                        i <= options@.len(),
                        crate::wire::values_view(*options) == vals,
                        texts@.map_values(|s: String| s@) == utf8_texts(vals.take(i as int)),
                    decreases options@.len() - i,
                {
                    let ghost t0 = texts@;
                    proof {
                        lemma_utf8_texts_push(vals.take(i as int), vals[i as int]);
                        assert(vals.take(i as int + 1) =~= vals.take(i as int).push(vals[i as int]));
                    }
                    assert(options[i as int]@ == vals[i as int]);
                    match utf8_text(options[i].as_slice()) {
                        Some(s) => {
                            texts.push(s);
                            assert(texts@.map_values(|s: String| s@) =~= t0.map_values(|s: String| s@).push(
                                decode_utf8(vals[i as int]),
                            ));
                        },
                        None => {},
                    }
                    i = i + 1;
                }
                assert(vals.take(options@.len() as int) =~= vals);
            },
            None => {
                assert(texts@.map_values(|s: String| s@) =~= utf8_texts(vals));
            },
        }
        join_with_slash(&texts)
    }
}

/// Texts of values, one value more.
proof fn lemma_utf8_texts_push(values: Seq<Seq<u8>>, v: Seq<u8>)
    ensures
        utf8_texts(values.push(v)) == utf8_texts(values) + (if valid_utf8(v) {
            seq![decode_utf8(v)]
        } else {
            Seq::<Seq<char>>::empty()
        }),
    decreases values.len(),
{
    let hv: Seq<Seq<char>> = if valid_utf8(v) { seq![decode_utf8(v)] } else { Seq::empty() };
    if values.len() == 0 {
        assert(values.push(v).drop_first() =~= Seq::<Seq<u8>>::empty());
        assert(utf8_texts(Seq::<Seq<u8>>::empty()) =~= Seq::<Seq<char>>::empty());
        assert(values.push(v)[0] == v);
        assert(utf8_texts(values.push(v)) =~= hv + Seq::<Seq<char>>::empty());
        assert(utf8_texts(values) =~= Seq::<Seq<char>>::empty());
        assert(utf8_texts(values.push(v)) =~= utf8_texts(values) + hv);
    } else {
        lemma_utf8_texts_push(values.drop_first(), v);
        assert(values.push(v).drop_first() =~= values.drop_first().push(v));
        assert(values.push(v)[0] == values[0]);
        let h0: Seq<Seq<char>> = if valid_utf8(values[0]) { seq![decode_utf8(values[0])] } else { Seq::empty() };
        assert(utf8_texts(values.push(v)) == h0 + utf8_texts(values.drop_first().push(v)));
        assert(utf8_texts(values) == h0 + utf8_texts(values.drop_first()));
        assert(utf8_texts(values.push(v)) =~= utf8_texts(values) + hv);
    }
}

/// The strings of `texts` joined with slashes (see `join_slash`).
fn join_with_slash(texts: &Vec<String>) -> (r: String)
    ensures
        r@ == join_slash(texts@.map_values(|s: String| s@)),
{
    let ghost tv = texts@.map_values(|s: String| s@);
    let mut r = String::new();
    if texts.len() == 0 {
        return r;
    }
    let n = texts.len();
    let mut i: usize = n - 1;
    crate::text::append_str(&mut r, texts[i].as_str());
    proof {
        assert(tv.skip(i as int) =~= seq![tv[i as int]]);
        reveal_strlit("/");
    }
    while i > 0
        invariant
            0 <= i < n,
            n == texts@.len(),
            tv == texts@.map_values(|s: String| s@),
            r@ == join_slash(tv.skip(i as int)),
        decreases i,
    {
        i = i - 1;
        let mut t = String::new();
        crate::text::append_str(&mut t, texts[i].as_str());
        crate::text::append_str(&mut t, "/");
        crate::text::append_str(&mut t, r.as_str());
        proof {
            assert(tv.skip(i as int).drop_first() =~= tv.skip(i as int + 1));
            assert(tv.skip(i as int)[0] == tv[i as int]);
            assert(texts@[i as int]@ == tv[i as int]);
            reveal_strlit("/");
            assert("/"@ =~= seq!['/']);
            assert(tv.skip(i as int).len() > 1);
            assert(join_slash(tv.skip(i as int)) == tv[i as int] + seq!['/'] + join_slash(tv.skip(i as int + 1)));
            assert(t@ =~= join_slash(tv.skip(i as int)));
        }
        r = t;
    }
    assert(tv.skip(0) =~= tv);
    r
}

impl<Endpoint> IsMessage for CoAPRequest<Endpoint> {
    open spec fn message_of(&self) -> PacketModel {
        self.message@
    }

    fn get_message(&self) -> (p: &Packet) {
        &self.message
    }

    fn get_mut_message(&mut self) -> (p: &mut Packet) {
        &mut self.message
    }

    fn get_header(&self) -> (h: &Header) {
        &self.message.header
    }

    fn get_mut_header(&mut self) -> (h: &mut Header) {
        &mut self.message.header
    }
}

/// Text encoded as UTF-8 decodes to itself, value by value.
proof fn lemma_utf8_texts_encoded(texts: Seq<Seq<char>>)
    ensures
        utf8_texts(texts.map_values(|s: Seq<char>| encode_utf8(s))) == texts,
    decreases texts.len(),
{
    let enc = texts.map_values(|s: Seq<char>| encode_utf8(s));
    if texts.len() > 0 {
        lemma_utf8_texts_encoded(texts.drop_first());
        assert(enc.drop_first() =~= texts.drop_first().map_values(|s: Seq<char>| encode_utf8(s)));
        vstd::utf8::encode_utf8_valid_utf8(texts[0]);
        vstd::utf8::encode_utf8_decode_utf8(texts[0]);
        assert(enc[0] == encode_utf8(texts[0]));
        assert(utf8_texts(enc) =~= seq![texts[0]] + texts.drop_first());
        assert(seq![texts[0]] + texts.drop_first() =~= texts);
    } else {
        assert(enc =~= Seq::<Seq<u8>>::empty());
    }
}

/// The path read back after `set_path` is the path without empty pieces:
/// its non-empty pieces between slashes, joined with single slashes.
pub proof fn lemma_set_path_get_path(path: Seq<char>)
    ensures
        join_slash(utf8_texts(uri_path_values(path))) == join_slash(nonempty_pieces(split_slash(path))),
{
    lemma_utf8_texts_encoded(nonempty_pieces(split_slash(path)));
}

} // verus!
