//! Das Ereignismodell eines XML-Dokuments und seine Ausgabe als Bytes.

use vstd::prelude::*;
use vstd::utf8::*;
use vstd::string::StringSliceAdditionalSpecFns;
use crate::leser::str_aus_utf8;
use quick_xml::events::{BytesCData, BytesDecl, BytesEnd, BytesPI, BytesStart, BytesText, Event};
use quick_xml::Writer;

verus! {

/// Die Art eines XML-Ereignisses, wie der XML-Leser sie unterscheidet.
#[derive(Clone, Copy, Debug, PartialEq, Eq, Structural)]
pub enum Art {
    Start,
    Ende,
    Leer,
    Text,
    CData,
    Kommentar,
    Dekl,
    PI,
    DocType,
    Eof,
}

/// Ein XML-Ereignis: seine Art und die rohen Bytes zwischen den Begrenzern
/// (bei `Start` und `Leer` der Name samt Attributen, bei `Ende` der Name,
/// bei `Text` der unverändert maskierte Text).
#[derive(Debug)]
pub struct XmlEreignis {
    pub art: Art,
    pub inhalt: Vec<u8>,
}

/// Die mathematische Sicht auf ein [`XmlEreignis`].
pub struct XmlEreignisV {
    pub art: Art,
    pub inhalt: Seq<u8>,
}

impl View for XmlEreignis {
    type V = XmlEreignisV;

    open spec fn view(&self) -> XmlEreignisV {
        XmlEreignisV { art: self.art, inhalt: self.inhalt@ }
    }
}

/// Die Bytes, die `quick_xml::Writer::write_event` ohne Einrückung für ein
/// Ereignis ausgibt: die Begrenzer seiner Art um den rohen Inhalt.
pub open spec fn ereignis_bytes(e: XmlEreignisV) -> Seq<u8> {
    match e.art {
        Art::Start => seq![60u8] + e.inhalt + seq![62u8],
        Art::Ende => seq![60u8, 47u8] + e.inhalt + seq![62u8],
        Art::Leer => seq![60u8] + e.inhalt + seq![47u8, 62u8],
        Art::Text => e.inhalt,
        Art::CData => seq![60u8, 33u8, 91u8, 67u8, 68u8, 65u8, 84u8, 65u8, 91u8] + e.inhalt
            + seq![93u8, 93u8, 62u8],
        Art::Kommentar => seq![60u8, 33u8, 45u8, 45u8] + e.inhalt + seq![45u8, 45u8, 62u8],
        Art::Dekl => seq![60u8, 63u8] + e.inhalt + seq![63u8, 62u8],
        Art::PI => seq![60u8, 63u8] + e.inhalt + seq![63u8, 62u8],
        Art::DocType => seq![60u8, 33u8, 68u8, 79u8, 67u8, 84u8, 89u8, 80u8, 69u8, 32u8]
            + e.inhalt + seq![62u8],
        Art::Eof => Seq::empty(),
    }
}

/// Eine Folge von ASCII-Bytes ist gültiges UTF-8.
pub proof fn lemma_ascii_gueltig(b: Seq<u8>)
    requires
        forall|i: int| 0 <= i < b.len() ==> #[trigger] b[i] < 128,
    ensures
        valid_utf8(b),
    decreases b.len(),
{
    if b.len() > 0 {
        let x = b[0];
        assert(x < 128);
        assert((x & 0x7Fu8) == x) by (bit_vector)
            requires x < 128u8;
        assert(valid_first_scalar(b));
        assert(pop_first_scalar(b) =~= b.drop_first());
        lemma_ascii_gueltig(b.drop_first());
    }
}

/// Hängt die Bytes `teil` an `aus` an.
pub fn bytes_anhaengen(aus: &mut Vec<u8>, teil: &[u8])
    ensures
        final(aus)@ == old(aus)@ + teil@,
{
    let mut i: usize = 0;
    while i < teil.len()
        invariant
            i <= teil@.len(),
            aus@ == old(aus)@ + teil@.subrange(0, i as int),
        decreases teil@.len() - i,
    {
        aus.push(teil[i]);
        i = i + 1;
        assert(teil@.subrange(0, i as int) =~= teil@.subrange(0, i - 1) + seq![teil@[i - 1]]);
    }
    assert(teil@.subrange(0, i as int) =~= teil@);
}

/// `quick_xml::Writer::write_event` auf einem `Writer::new` über `aus`, für ein
/// Ereignis der Art `art` mit dem rohen Inhalt `t` (nicht erneut maskiert).
/// Vertrag: ohne Einrückung schreibt der Schreiber Anfangs- und Endbegrenzer
/// der Art um den Inhalt (`write_wrapped`), bei Text nur den Inhalt, bei `Eof`
/// nichts; das Schreiben in einen `Vec<u8>` schlägt nicht fehl.
#[verifier::external_body]
fn ereignis_roh(aus: &mut Vec<u8>, art: Art, t: &str)
    ensures
        final(aus)@ == old(aus)@ + ereignis_bytes((XmlEreignisV { art, inhalt: t.spec_bytes() })),
{
    let ev = match art {
        Art::Start => Event::Start(BytesStart::from_content(t, 0)),
        Art::Ende => Event::End(BytesEnd::new(t)),
        Art::Leer => Event::Empty(BytesStart::from_content(t, 0)),
        Art::Text => Event::Text(BytesText::from_escaped(t)),
        Art::CData => Event::CData(BytesCData::new(t)),
        Art::Kommentar => Event::Comment(BytesText::from_escaped(t)),
        Art::Dekl => Event::Decl(BytesDecl::from_start(BytesStart::from_content(t, 0))),
        Art::PI => Event::PI(BytesPI::new(t)),
        Art::DocType => Event::DocType(BytesText::from_escaped(t)),
        Art::Eof => Event::Eof,
    };
    let _ = Writer::new(aus).write_event(ev);
}

/// Schreibt ein Ereignis so, wie es ein XML-Schreiber ohne Einrückung tut.
pub fn ereignis_schreiben(aus: &mut Vec<u8>, e: &XmlEreignis)
    requires
        valid_utf8(e.inhalt@),
    ensures
        final(aus)@ == old(aus)@ + ereignis_bytes(e@),
{
    let t = str_aus_utf8(e.inhalt.as_slice()).unwrap();
    proof {
        decode_utf8_encode_utf8(e.inhalt@);
    }
    ereignis_roh(aus, e.art, t);
}

} // verus!
