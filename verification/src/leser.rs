//! Der Zugang zum XML-Leser von `quick_xml`: Ereignisse, Attribute und
//! Entmaskierung, jeweils als reine Werte dieser Bibliothek.

use vstd::prelude::*;
use vstd::utf8::*;
use vstd::string::StringSliceAdditionalSpecFns;
use quick_xml::events::attributes::{AttrError, Attribute, Attributes};
use quick_xml::events::Event;
use quick_xml::name::QName;
use quick_xml::reader::Reader;
use std::borrow::Cow;
use crate::ereignis::{Art, XmlEreignis, XmlEreignisV};

verus! {

#[verifier::external_type_specification]
#[verifier::external_body]
#[verifier::reject_recursive_types(R)]
pub struct ExLeser<R>(Reader<R>);

#[verifier::external_type_specification]
#[verifier::external_body]
pub struct ExAttributes<'a>(Attributes<'a>);

#[verifier::external_type_specification]
#[verifier::external_body]
pub struct ExAttribute<'a>(Attribute<'a>);

#[verifier::external_type_specification]
#[verifier::external_body]
pub struct ExAttrError(AttrError);

/// Ein Lesefehler des XML-Lesers, mit seiner Meldung.
#[derive(Debug)]
pub struct XmlFehler {
    pub meldung: String,
}

/// Was ein XML-Leser, der mit `Reader::from_str(quelle)` erzeugt und dessen
/// Textkürzung (`trim_text`) auf `gekuerzt` gesetzt wurde, bei seinen
/// aufeinanderfolgenden `read_event`-Aufrufen liefert, bis zum ersten `Eof`
/// (ausschließlich): `Ok(e)` für ein Ereignis, `Err(meldung)` für einen
/// Fehler mit dessen Meldung (`to_string`).
pub uninterp spec fn xml_lesefolge(quelle: Seq<char>, gekuerzt: bool) -> Seq<Result<XmlEreignisV, Seq<char>>>;

/// Eine Lesung ohne die Meldung eines Fehlers.
pub open spec fn ohne_meldung(l: Result<XmlEreignisV, Seq<char>>) -> Option<XmlEreignisV> {
    match l {
        Ok(e) => Some(e),
        Err(_) => None,
    }
}

/// Lesungen ohne die Meldungen ihrer Fehler.
pub open spec fn ohne_meldungen(s: Seq<Result<XmlEreignisV, Seq<char>>>) -> Seq<Option<XmlEreignisV>> {
    s.map_values(|l: Result<XmlEreignisV, Seq<char>>| ohne_meldung(l))
}

/// Die Lesungen eines Dokuments, wie die Motoren sie verarbeiten: `Some(e)`
/// für ein Ereignis, `None` für einen Fehler.
pub open spec fn xml_lesungen(quelle: Seq<char>, gekuerzt: bool) -> Seq<Option<XmlEreignisV>> {
    ohne_meldungen(xml_lesefolge(quelle, gekuerzt))
}

/// Die Meldung des ersten Lesefehlers einer Lesefolge (leer, wenn keiner
/// vorkommt).
pub open spec fn erste_meldung(s: Seq<Result<XmlEreignisV, Seq<char>>>) -> Seq<char>
    decreases s.len(),
{
    if s.len() == 0 {
        Seq::empty()
    } else {
        match s[0] {
            Err(m) => m,
            Ok(_) => erste_meldung(s.drop_first()),
        }
    }
}

/// `m` ist die Meldung eines Lesefehlers der Folge.
pub open spec fn meldet(s: Seq<Result<XmlEreignisV, Seq<char>>>, m: Seq<char>) -> bool {
    exists|p: int| 0 <= p < s.len() && #[trigger] s[p] == Err::<XmlEreignisV, Seq<char>>(m)
}

/// Gehen einem Lesefehler nur Ereignisse voraus, ist seine Meldung die erste.
pub proof fn lemma_erste_meldung(l: Seq<Result<XmlEreignis, XmlFehler>>, i: int)
    requires
        0 <= i < l.len(),
        forall|k: int| 0 <= k < i ==> l[k] is Ok,
        l[i] is Err,
    ensures
        l[i] matches Err(f) && erste_meldung(lesungen_voll(l)) == f.meldung@,
    decreases i,
{
    if i > 0 {
        assert(l[0] is Ok);
        assert forall|k: int| 0 <= k < i - 1 implies l.drop_first()[k] is Ok by {
            assert(l.drop_first()[k] == l[k + 1]);
        }
        lemma_erste_meldung(l.drop_first(), i - 1);
        assert(lesungen_voll(l).drop_first() =~= lesungen_voll(l.drop_first()));
    }
}

/// Die Lesungen, die ein Leser noch liefern wird, bevor er `Eof` meldet.
pub uninterp spec fn restliche_lesungen(r: Reader<&[u8]>) -> Seq<Result<XmlEreignisV, Seq<char>>>;

/// Was ein Attribut-Iterator `Attributes::new(inhalt, ab)` nacheinander
/// liefert, bis er endet: `Some((schluessel, roher_wert))` oder `None` für einen
/// Attributfehler.
pub uninterp spec fn attribut_lesungen(inhalt: Seq<char>, ab: nat) -> Seq<Option<(Seq<u8>, Seq<u8>)>>;

/// Die Attribute, die ein Attribut-Iterator noch liefern wird.
pub uninterp spec fn restliche_attribute(a: Attributes) -> Seq<Option<(Seq<u8>, Seq<u8>)>>;

/// Das Ergebnis von `Attribute::unescape_value` für einen rohen Wert: UTF-8
/// dekodieren und die vordefinierten Entitäten und Zeichenreferenzen
/// auflösen; `None` bei einem Fehler.
pub uninterp spec fn xml_entschluesselt(roh: Seq<u8>) -> Option<Seq<char>>;

/// Eine Lesung samt der Meldung eines Fehlers.
pub open spec fn lesung_voll(l: Result<XmlEreignis, XmlFehler>) -> Result<XmlEreignisV, Seq<char>> {
    match l {
        Ok(e) => Ok(e@),
        Err(f) => Err(f.meldung@),
    }
}

/// Lesungen samt den Meldungen ihrer Fehler.
pub open spec fn lesungen_voll(s: Seq<Result<XmlEreignis, XmlFehler>>) -> Seq<Result<XmlEreignisV, Seq<char>>> {
    s.map_values(|l: Result<XmlEreignis, XmlFehler>| lesung_voll(l))
}

/// Eine Lesung ohne die Meldung eines Fehlers.
pub open spec fn lesung_v(l: Result<XmlEreignis, XmlFehler>) -> Option<XmlEreignisV> {
    match l {
        Ok(e) => Some(e@),
        Err(_) => None,
    }
}

/// Lesungen ohne die Meldungen ihrer Fehler.
pub open spec fn lesungen_v(s: Seq<Result<XmlEreignis, XmlFehler>>) -> Seq<Option<XmlEreignisV>> {
    s.map_values(|l: Result<XmlEreignis, XmlFehler>| lesung_v(l))
}

/// Jede Lesung ist ein Ereignis außer `Eof`, und ihre Bytes sind gültiges UTF-8
/// (der Leser schneidet nur an ASCII-Begrenzern).
pub open spec fn lesungen_wohlgeformt(s: Seq<Option<XmlEreignisV>>) -> bool {
    forall|i: int| 0 <= i < s.len() ==> match #[trigger] s[i] {
        Some(e) => e.art != Art::Eof && valid_utf8(e.inhalt),
        None => true,
    }
}

/// Ein gelesenes Ereignis einer wohlgeformten Folge ist gültiges UTF-8.
pub proof fn lemma_lesung_gueltig(s: Seq<Option<XmlEreignisV>>, l: Seq<Result<XmlEreignis, XmlFehler>>, i: int)
    requires
        s == lesungen_v(l),
        lesungen_wohlgeformt(s),
        0 <= i < l.len(),
    ensures
        l[i] matches Ok(e) ==> valid_utf8(e.inhalt@),
{
    assert(s[i] == lesung_v(l[i]));
}

/// `quick_xml::Reader::from_str` mit `config_mut().trim_text(gekuerzt)`.
/// Vertrag: der Leser liefert genau `xml_lesefolge(quelle, gekuerzt)`, und
/// jede Lesung schneidet die UTF-8-Quelle an ASCII-Begrenzern (`<`, `>`,
/// Leerraum, Anführungen), ist also selbst gültiges UTF-8; `Eof` kommt in der
/// Folge nicht vor, weil sie vor dem ersten `Eof` endet.
#[verifier::external_body]
fn leser_neu<'a>(quelle: &'a str, gekuerzt: bool) -> (r: Reader<&'a [u8]>)
    ensures
        restliche_lesungen(r) == xml_lesefolge(quelle@, gekuerzt),
        lesungen_wohlgeformt(ohne_meldungen(restliche_lesungen(r))),
{
    let mut r = Reader::from_str(quelle);
    r.config_mut().trim_text(gekuerzt);
    r
}

/// `Reader::read_event`, das Ereignis umgewandelt in Art und rohe Bytes
/// (`Deref` des Ereignisses), ein Fehler in seine Meldung (`to_string`).
/// Vertrag: liefert die nächste ausstehende
/// Lesung; sind keine mehr ausstehend, liefert es `Eof` (der Leser bleibt
/// danach im Endzustand).
#[verifier::external_body]
fn naechste_lesung(r: &mut Reader<&[u8]>) -> (res: Result<XmlEreignis, XmlFehler>)
    ensures
        restliche_lesungen(*old(r)).len() == 0 ==> {
            &&& res matches Ok(e) && e.art == Art::Eof
            &&& restliche_lesungen(*final(r)).len() == 0
        },
        restliche_lesungen(*old(r)).len() > 0 ==> {
            &&& lesung_voll(res) == restliche_lesungen(*old(r))[0]
            &&& restliche_lesungen(*final(r)) == restliche_lesungen(*old(r)).drop_first()
        },
{
    match r.read_event() {
        Ok(e) => {
            let art = match &e {
                Event::Start(_) => Art::Start, Event::End(_) => Art::Ende,
                Event::Empty(_) => Art::Leer, Event::Text(_) => Art::Text,
                Event::CData(_) => Art::CData, Event::Comment(_) => Art::Kommentar,
                Event::Decl(_) => Art::Dekl, Event::PI(_) => Art::PI,
                Event::DocType(_) => Art::DocType, Event::Eof => Art::Eof,
            };
            Ok(XmlEreignis { art, inhalt: e.to_vec() })
        },
        Err(f) => Err(XmlFehler { meldung: f.to_string() }),
    }
}

/// Liest ein Dokument vollständig: alle Lesungen bis zum ersten `Eof`, Fehler
/// mit ihrer Meldung.
pub fn lesungen(quelle: &str, gekuerzt: bool) -> (res: Vec<Result<XmlEreignis, XmlFehler>>)
    ensures
        lesungen_voll(res@) == xml_lesefolge(quelle@, gekuerzt),
        lesungen_v(res@) == xml_lesungen(quelle@, gekuerzt),
        lesungen_wohlgeformt(xml_lesungen(quelle@, gekuerzt)),
{
    let mut r = leser_neu(quelle, gekuerzt);
    let ghost alle = xml_lesefolge(quelle@, gekuerzt);
    let mut res: Vec<Result<XmlEreignis, XmlFehler>> = Vec::new();
    loop
        invariant
            alle == lesungen_voll(res@) + restliche_lesungen(r),
            alle == xml_lesefolge(quelle@, gekuerzt),
            lesungen_wohlgeformt(ohne_meldungen(alle)),
        ensures
            lesungen_voll(res@) == alle,
        decreases restliche_lesungen(r).len(),
    {
        let ghost vorher = restliche_lesungen(r);
        let l = naechste_lesung(&mut r);
        let ist_eof = match &l {
            Ok(e) => e.art == Art::Eof,
            Err(_) => false,
        };
        if ist_eof {
            proof {
                if vorher.len() > 0 {
                    let k = lesungen_voll(res@).len() as int;
                    assert(alle[k] == vorher[0]);
                    assert(ohne_meldungen(alle)[k] == ohne_meldung(alle[k]));
                }
            }
            assert(alle =~= lesungen_voll(res@));
            break;
        }
        let ghost alt = res@;
        res.push(l);
        assert(lesungen_voll(res@) =~= lesungen_voll(alt).push(lesung_voll(l)));
        assert(vorher =~= seq![vorher[0]] + vorher.drop_first());
        assert(alle =~= lesungen_voll(res@) + restliche_lesungen(r));
    }
    assert(lesungen_v(res@) =~= ohne_meldungen(lesungen_voll(res@)));
    res
}

/// `std::str::from_utf8`: genau dann ein `&str`, wenn die Bytes gültiges
/// UTF-8 sind, und dann dessen Zeichen.
#[verifier::external_body]
pub(crate) fn str_aus_utf8(b: &[u8]) -> (res: Option<&str>)
    ensures
        res is Some <==> valid_utf8(b@),
        res matches Some(s) ==> s@ == decode_utf8(b@),
{
    std::str::from_utf8(b).ok()
}

/// `Attributes::new(inhalt, ab)`: ein Iterator über die Attribute ab der
/// Byteposition `ab`, die am Ende oder auf einem ASCII-Byte steht (also an
/// einer Zeichengrenze). Vertrag: er liefert genau `attribut_lesungen(inhalt, ab)`,
/// und Schlüssel und Werte schneiden das UTF-8 des Inhalts an ASCII-Zeichen
/// (Leerraum, `=`, Anführungen), sind also gültiges UTF-8.
#[verifier::external_body]
fn attribute_neu<'a>(inhalt: &'a str, ab: usize) -> (a: Attributes<'a>)
    requires
        ab <= inhalt.spec_bytes().len(),
        ab == inhalt.spec_bytes().len() || inhalt.spec_bytes()[ab as int] < 128,
    ensures
        restliche_attribute(a) == attribut_lesungen(inhalt@, ab as nat),
        attribute_wohlgeformt(restliche_attribute(a)),
{
    Attributes::new(inhalt, ab)
}

pub open spec fn attribute_wohlgeformt(s: Seq<Option<(Seq<u8>, Seq<u8>)>>) -> bool {
    forall|i: int| 0 <= i < s.len() ==> match #[trigger] s[i] {
        Some(kv) => valid_utf8(kv.0) && valid_utf8(kv.1),
        None => true,
    }
}

/// `Attributes::next`, das Attribut umgewandelt in (Schlüssel, roher Wert).
/// Vertrag: liefert das nächste ausstehende Attribut, `None` wenn keines
/// mehr aussteht.
#[verifier::external_body]
fn naechstes_attribut(a: &mut Attributes) -> (res: Option<Result<(Vec<u8>, Vec<u8>), ()>>)
    ensures
        restliche_attribute(*old(a)).len() == 0 ==> {
            &&& res is None
            &&& restliche_attribute(*final(a)).len() == 0
        },
        restliche_attribute(*old(a)).len() > 0 ==> {
            &&& res is Some
            &&& restliche_attribute(*old(a))[0] == match res.unwrap() {
                Ok(kv) => Some((kv.0@, kv.1@)),
                Err(_) => None,
            }
            &&& restliche_attribute(*final(a)) == restliche_attribute(*old(a)).drop_first()
        },
{
    match a.next() {
        None => None,
        Some(Ok(attr)) => Some(Ok((attr.key.as_ref().to_vec(), attr.value.to_vec()))),
        Some(Err(_)) => Some(Err(())),
    }
}

pub open spec fn attribut_v(l: Result<(Vec<u8>, Vec<u8>), ()>) -> Option<(Seq<u8>, Seq<u8>)> {
    match l {
        Ok(kv) => Some((kv.0@, kv.1@)),
        Err(_) => None,
    }
}

/// Alle Attribute eines Inhalts ab der Byteposition `ab`.
pub fn attribute_lesen(inhalt: &str, ab: usize) -> (res: Vec<Result<(Vec<u8>, Vec<u8>), ()>>)
    requires
        ab <= inhalt.spec_bytes().len(),
        ab == inhalt.spec_bytes().len() || inhalt.spec_bytes()[ab as int] < 128,
    ensures
        res@.map_values(|l: Result<(Vec<u8>, Vec<u8>), ()>| attribut_v(l))
            == attribut_lesungen(inhalt@, ab as nat),
        attribute_wohlgeformt(attribut_lesungen(inhalt@, ab as nat)),
{
    let mut a = attribute_neu(inhalt, ab);
    let ghost alle = attribut_lesungen(inhalt@, ab as nat);
    let mut res: Vec<Result<(Vec<u8>, Vec<u8>), ()>> = Vec::new();
    loop
        invariant
            alle == res@.map_values(|l: Result<(Vec<u8>, Vec<u8>), ()>| attribut_v(l))
                + restliche_attribute(a),
            attribute_wohlgeformt(alle),
        ensures
            res@.map_values(|l: Result<(Vec<u8>, Vec<u8>), ()>| attribut_v(l)) == alle,
        decreases restliche_attribute(a).len(),
    {
        let ghost vorher = restliche_attribute(a);
        match naechstes_attribut(&mut a) {
            None => {
                assert(alle =~= res@.map_values(|l: Result<(Vec<u8>, Vec<u8>), ()>| attribut_v(l)));
                break;
            },
            Some(l) => {
                let ghost alt = res@;
                res.push(l);
                assert(res@.map_values(|l: Result<(Vec<u8>, Vec<u8>), ()>| attribut_v(l))
                    =~= alt.map_values(|l: Result<(Vec<u8>, Vec<u8>), ()>| attribut_v(l)).push(attribut_v(l)));
                assert(vorher =~= seq![vorher[0]] + vorher.drop_first());
            },
        }
    }
    res
}

/// `Attribute::unescape_value` für einen rohen Attributwert. Derselbe Schritt
/// (`decode_cow` mit UTF-8, dann `unescape_with(resolve_predefined_entity)`)
/// ist auch der von `BytesText::unescape`. Vertrag: gelingt genau nach
/// `xml_entschluesselt(roh)`, mit diesem Text; ein Fehler trägt die Meldung
/// des Fehlers (`to_string`), über deren Wortlaut der Vertrag nichts sagt.
#[verifier::external_body]
pub(crate) fn entschluesseln(roh: &[u8]) -> (res: Result<String, String>)
    ensures
        match res {
            Ok(s) => xml_entschluesselt(roh@) == Some(s@),
            Err(_) => xml_entschluesselt(roh@) is None,
        },
{
    let attr = Attribute { key: QName(&roh[..0]), value: Cow::Borrowed(roh) };
    match attr.unescape_value() {
        Ok(s) => Ok(s.into_owned()),
        Err(e) => Err(e.to_string()),
    }
}

} // verus!
