//! The message chain: an ordered, append-only collection of segments,
//! mutable while building and immutable once finalized, with kind-based
//! filtering and concatenated wire text.
use vstd::prelude::*;

use crate::cq_code::{tag_chars, CQCode, CQCodeType, RawMessage};
use crate::cq_codes::{
    at_fields, face_fields, forward_fields, image_fields, json_fields, music_fields, poke_fields,
    reply_fields, share_fields, tts_fields, video_fields, voice_fields, xml_fields, At, Face,
    Forward, Image, Json, Music, Poke, Reply, Share, Tts, Video, Voice, Xml,
};
use crate::wire::{spec_message, SpecVal};

verus! {

/// A chain operation was invoked outside the state that permits it.
#[derive(Debug, Clone, Copy, PartialEq, Eq, Structural)]
pub struct InvalidState;

/// One message segment of any kind.
#[derive(Debug, Clone, PartialEq)]
pub enum Segment {
    Face(Face),
    Voice(Voice),
    Video(Video),
    At(At),
    Share(Share),
    Music(Music),
    Image(Image),
    Reply(Reply),
    Poke(Poke),
    Forward(Forward),
    Xml(Xml),
    Tts(Tts),
    Json(Json),
}

impl Segment {
    pub open spec fn kind_spec(&self) -> CQCodeType {
        match self {
            Segment::Face(_) => CQCodeType::Face,
            Segment::Voice(_) => CQCodeType::Record,
            Segment::Video(_) => CQCodeType::Video,
            Segment::At(_) => CQCodeType::At,
            Segment::Share(_) => CQCodeType::Share,
            Segment::Music(_) => CQCodeType::Music,
            Segment::Image(_) => CQCodeType::Image,
            Segment::Reply(_) => CQCodeType::Reply,
            Segment::Poke(_) => CQCodeType::Poke,
            Segment::Forward(_) => CQCodeType::Forward,
            Segment::Xml(_) => CQCodeType::Xml,
            Segment::Tts(_) => CQCodeType::Tts,
            Segment::Json(_) => CQCodeType::Json,
        }
    }

    /// The data members this segment writes into its wire form.
    pub open spec fn fields_spec(&self) -> Seq<(Seq<char>, SpecVal)> {
        match self {
            Segment::Face(x) => face_fields(x.data),
            Segment::Voice(x) => voice_fields(x.data),
            Segment::Video(x) => video_fields(x.data),
            Segment::At(x) => at_fields(x.data),
            Segment::Share(x) => share_fields(x.data),
            Segment::Music(x) => music_fields(x.data),
            Segment::Image(x) => image_fields(x.data),
            Segment::Reply(x) => reply_fields(x.data),
            Segment::Poke(x) => poke_fields(x.data),
            Segment::Forward(x) => forward_fields(x.data),
            Segment::Xml(x) => xml_fields(x.data),
            Segment::Tts(x) => tts_fields(x.data),
            Segment::Json(x) => json_fields(x.data),
        }
    }

    pub open spec fn wire_spec(&self) -> Seq<char> {
        match self {
            Segment::Face(x) => x.wire_spec(),
            Segment::Voice(x) => x.wire_spec(),
            Segment::Video(x) => x.wire_spec(),
            Segment::At(x) => x.wire_spec(),
            Segment::Share(x) => x.wire_spec(),
            Segment::Music(x) => x.wire_spec(),
            Segment::Image(x) => x.wire_spec(),
            Segment::Reply(x) => x.wire_spec(),
            Segment::Poke(x) => x.wire_spec(),
            Segment::Forward(x) => x.wire_spec(),
            Segment::Xml(x) => x.wire_spec(),
            Segment::Tts(x) => x.wire_spec(),
            Segment::Json(x) => x.wire_spec(),
        }
    }

    pub fn kind(&self) -> (k: CQCodeType)
        ensures
            k == self.kind_spec(),
    {
        match self {
            Segment::Face(x) => x.cq_code(),
            Segment::Voice(x) => x.cq_code(),
            Segment::Video(x) => x.cq_code(),
            Segment::At(x) => x.cq_code(),
            Segment::Share(x) => x.cq_code(),
            Segment::Music(x) => x.cq_code(),
            Segment::Image(x) => x.cq_code(),
            Segment::Reply(x) => x.cq_code(),
            Segment::Poke(x) => x.cq_code(),
            Segment::Forward(x) => x.cq_code(),
            Segment::Xml(x) => x.cq_code(),
            Segment::Tts(x) => x.cq_code(),
            Segment::Json(x) => x.cq_code(),
        }
    }

    pub fn encode(&self) -> (r: RawMessage)
        ensures
            r@ == self.wire_spec(),
    {
        match self {
            Segment::Face(x) => x.to_raw_message(),
            Segment::Voice(x) => x.to_raw_message(),
            Segment::Video(x) => x.to_raw_message(),
            Segment::At(x) => x.to_raw_message(),
            Segment::Share(x) => x.to_raw_message(),
            Segment::Music(x) => x.to_raw_message(),
            Segment::Image(x) => x.to_raw_message(),
            Segment::Reply(x) => x.to_raw_message(),
            Segment::Poke(x) => x.to_raw_message(),
            Segment::Forward(x) => x.to_raw_message(),
            Segment::Xml(x) => x.to_raw_message(),
            Segment::Tts(x) => x.to_raw_message(),
            Segment::Json(x) => x.to_raw_message(),
        }
    }
}

/// The kind a segment reports is the kind tag embedded in its wire text.
pub proof fn lemma_kind_in_wire(s: Segment)
    ensures
        s.wire_spec() == spec_message(tag_chars(s.kind_spec()), s.fields_spec()),
{
    match s {
        Segment::Face(x) => assert(x.wire_spec() == spec_message(tag_chars(CQCodeType::Face), face_fields(x.data))),
        Segment::Voice(x) => assert(x.wire_spec() == spec_message(tag_chars(CQCodeType::Record), voice_fields(x.data))),
        Segment::Video(x) => assert(x.wire_spec() == spec_message(tag_chars(CQCodeType::Video), video_fields(x.data))),
        Segment::At(x) => assert(x.wire_spec() == spec_message(tag_chars(CQCodeType::At), at_fields(x.data))),
        Segment::Share(x) => assert(x.wire_spec() == spec_message(tag_chars(CQCodeType::Share), share_fields(x.data))),
        Segment::Music(x) => assert(x.wire_spec() == spec_message(tag_chars(CQCodeType::Music), music_fields(x.data))),
        Segment::Image(x) => assert(x.wire_spec() == spec_message(tag_chars(CQCodeType::Image), image_fields(x.data))),
        Segment::Reply(x) => assert(x.wire_spec() == spec_message(tag_chars(CQCodeType::Reply), reply_fields(x.data))),
        Segment::Poke(x) => assert(x.wire_spec() == spec_message(tag_chars(CQCodeType::Poke), poke_fields(x.data))),
        Segment::Forward(x) => assert(x.wire_spec() == spec_message(tag_chars(CQCodeType::Forward), forward_fields(x.data))),
        Segment::Xml(x) => assert(x.wire_spec() == spec_message(tag_chars(CQCodeType::Xml), xml_fields(x.data))),
        Segment::Tts(x) => assert(x.wire_spec() == spec_message(tag_chars(CQCodeType::Tts), tts_fields(x.data))),
        Segment::Json(x) => assert(x.wire_spec() == spec_message(tag_chars(CQCodeType::Json), json_fields(x.data))),
    }
}

/// Concatenation of the wire texts of a sequence of segments.
pub open spec fn chain_wire(segs: Seq<Segment>) -> Seq<char>
    decreases segs.len(),
{
    if segs.len() == 0 {
        Seq::empty()
    } else {
        segs[0].wire_spec() + chain_wire(segs.skip(1))
    }
}

pub proof fn lemma_chain_wire_snoc(segs: Seq<Segment>, s: Segment)
    ensures
        chain_wire(segs.push(s)) == chain_wire(segs) + s.wire_spec(),
    decreases segs.len(),
{
    reveal_with_fuel(chain_wire, 3);
    if segs.len() == 0 {
        assert(segs.push(s).skip(1) =~= Seq::<Segment>::empty());
        assert(segs.push(s)[0] == s);
        assert(s.wire_spec() + Seq::<char>::empty() =~= s.wire_spec());
        assert(Seq::<char>::empty() + s.wire_spec() =~= s.wire_spec());
    } else {
        assert(segs.push(s).skip(1) =~= segs.skip(1).push(s));
        lemma_chain_wire_snoc(segs.skip(1), s);
        assert(segs.push(s)[0] == segs[0]);
        assert(segs[0].wire_spec() + (chain_wire(segs.skip(1)) + s.wire_spec()) =~= (
        segs[0].wire_spec() + chain_wire(segs.skip(1))) + s.wire_spec());
    }
}

/// The ordered subsequence of segments of one kind.
pub open spec fn spec_filter_kind(segs: Seq<Segment>, kind: CQCodeType) -> Seq<Segment> {
    segs.filter(|s: Segment| s.kind_spec() == kind)
}

/// Filtering keeps order: a three-segment chain whose first and third
/// segments have the requested kind, and whose second does not, filters
/// to exactly the first and third, in that order.
pub proof fn lemma_filter_orders(a: Segment, b: Segment, c: Segment, kind: CQCodeType)
    requires
        a.kind_spec() == kind,
        b.kind_spec() != kind,
        c.kind_spec() == kind,
    ensures
        spec_filter_kind(seq![a, b, c], kind) == seq![a, c],
{
    reveal_with_fuel(Seq::filter, 5);
    let pred = |s: Segment| s.kind_spec() == kind;
    assert(seq![a, b, c].drop_last() =~= seq![a, b]);
    assert(seq![a, b].drop_last() =~= seq![a]);
    assert(seq![a].drop_last() =~= Seq::<Segment>::empty());
    assert(seq![a].filter(pred) =~= seq![a]);
    assert(seq![a, b].filter(pred) =~= seq![a]);
    assert(seq![a, b, c].filter(pred) =~= seq![a, c]);
}

/// An ordered, append-only chain of segments. It starts in the building
/// state; once finalized it can no longer change, and only then does it
/// render its composite wire text.
#[derive(Debug)]
pub struct MessageChain {
    pub segments: Vec<Segment>,
    pub finalized: bool,
}

impl MessageChain {
    /// A new chain: building, empty.
    pub fn new() -> (r: MessageChain)
        ensures
            r.segments@ == Seq::<Segment>::empty(),
            !r.finalized,
    {
        MessageChain { segments: Vec::new(), finalized: false }
    }

    /// Appends a segment at the end. Valid only while building: on a
    /// finalized chain it fails and changes nothing.
    pub fn add(&mut self, seg: Segment) -> (r: Result<(), InvalidState>)
        ensures
            old(self).finalized ==> r == Err::<(), InvalidState>(InvalidState) && *final(self)
                == *old(self),
            !old(self).finalized ==> r == Ok::<(), InvalidState>(()) && final(self).segments@
                == old(self).segments@.push(seg) && !final(self).finalized,
    {
        if self.finalized {
            return Err(InvalidState);
        }
        self.segments.push(seg);
        Ok(())
    }

    /// The irreversible transition from building to finalized.
    pub fn finalize(&mut self)
        ensures
            final(self).finalized,
            final(self).segments@ == old(self).segments@,
    {
        self.finalized = true;
    }

    /// The composite wire text: the concatenation of each segment's wire
    /// text in insertion order. Valid only once finalized: on a building
    /// chain it fails.
    pub fn raw_message(&self) -> (r: Result<RawMessage, InvalidState>)
        ensures
            !self.finalized ==> r == Err::<RawMessage, InvalidState>(InvalidState),
            self.finalized ==> (r matches Ok(t) && t@ == chain_wire(self.segments@)),
    {
        if !self.finalized {
            return Err(InvalidState);
        }
        let mut out = String::new();
        let mut i: usize = 0;
        proof {
            assert(self.segments@.take(0) =~= Seq::<Segment>::empty());
        }
        while i < self.segments.len()
            invariant
                i <= self.segments@.len(),
                out@ == chain_wire(self.segments@.take(i as int)),
            decreases self.segments@.len() - i,
        {
            let piece = self.segments[i].encode();
            out.append(piece.as_str());
            proof {
                lemma_chain_wire_snoc(self.segments@.take(i as int), self.segments@[i as int]);
                assert(self.segments@.take(i + 1) =~= self.segments@.take(i as int).push(
                    self.segments@[i as int],
                ));
            }
            i = i + 1;
        }
        proof {
            assert(self.segments@.take(self.segments@.len() as int) =~= self.segments@);
        }
        Ok(out)
    }

    /// The ordered subsequence of segments whose kind matches. Valid in
    /// either state; an empty result is not an error.
    pub fn filter_instance<'a>(&'a self, kind: CQCodeType) -> (r: Vec<&'a Segment>)
        ensures
            r@.map_values(|x: &Segment| *x) == spec_filter_kind(self.segments@, kind),
    {
        let ghost pred = |s: Segment| s.kind_spec() == kind;
        let mut r: Vec<&Segment> = Vec::new();
        let mut i: usize = 0;
        proof {
            reveal_with_fuel(Seq::filter, 2);
            assert(self.segments@.take(0) =~= Seq::<Segment>::empty());
            assert(r@.map_values(|x: &Segment| *x) =~= self.segments@.take(0).filter(pred));
        }
        while i < self.segments.len()
            invariant
                i <= self.segments@.len(),
                r@.map_values(|x: &Segment| *x) == self.segments@.take(i as int).filter(pred),
                pred == (|s: Segment| s.kind_spec() == kind),
            decreases self.segments@.len() - i,
        {
            let s = &self.segments[i];
            let ghost pre = self.segments@.take(i as int);
            if s.kind() == kind {
                r.push(s);
            }
            proof {
                reveal_with_fuel(Seq::filter, 2);
                assert(self.segments@.take(i + 1) =~= pre.push(self.segments@[i as int]));
                assert(pre.push(self.segments@[i as int]).drop_last() =~= pre);
                if s.kind_spec() == kind {
                    assert(r@.map_values(|x: &Segment| *x) =~= pre.filter(pred).push(
                        self.segments@[i as int],
                    ));
                } else {
                    assert(r@.map_values(|x: &Segment| *x) =~= pre.filter(pred));
                }
            }
            i = i + 1;
        }
        proof {
            assert(self.segments@.take(self.segments@.len() as int) =~= self.segments@);
        }
        r
    }
}


/// The chain-building contract: append while building, render once
/// finalized, filter in either state. `MessageChain` implements it.
pub trait MessageChainBuilder: Sized {
    spec fn segments_spec(&self) -> Seq<Segment>;

    spec fn finalized_spec(&self) -> bool;

    fn add(&mut self, message: Segment) -> (r: Result<(), InvalidState>)
        ensures
            old(self).finalized_spec() ==> r == Err::<(), InvalidState>(InvalidState)
                && *final(self) == *old(self),
            !old(self).finalized_spec() ==> r == Ok::<(), InvalidState>(())
                && final(self).segments_spec() == old(self).segments_spec().push(message)
                && !final(self).finalized_spec(),
    ;

    fn raw_message(&self) -> (r: Result<RawMessage, InvalidState>)
        ensures
            !self.finalized_spec() ==> r == Err::<RawMessage, InvalidState>(InvalidState),
            self.finalized_spec() ==> (r matches Ok(t) && t@ == chain_wire(self.segments_spec())),
    ;

    fn filter_instance<'a>(&'a self, kind: CQCodeType) -> (r: Vec<&'a Segment>)
        ensures
            r@.map_values(|x: &Segment| *x) == spec_filter_kind(self.segments_spec(), kind),
    ;
}

impl MessageChainBuilder for MessageChain {
    open spec fn segments_spec(&self) -> Seq<Segment> {
        self.segments@
    }

    open spec fn finalized_spec(&self) -> bool {
        self.finalized
    }

    fn add(&mut self, message: Segment) -> (r: Result<(), InvalidState>) {
        MessageChain::add(self, message)
    }

    fn raw_message(&self) -> (r: Result<RawMessage, InvalidState>) {
        MessageChain::raw_message(self)
    }

    fn filter_instance<'a>(&'a self, kind: CQCodeType) -> (r: Vec<&'a Segment>) {
        MessageChain::filter_instance(self, kind)
    }
}

} // verus!
