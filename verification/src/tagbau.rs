//! Bau neuer Tags und Texte: Attribute übernehmen, Attribute anhängen,
//! Text maskieren, wie es die Motoren beim Ersetzen der Veha-Tags tun.

use vstd::prelude::*;
use vstd::utf8::*;
use crate::ereignis::lemma_ascii_gueltig;
use vstd::string::StringSliceAdditionalSpecFns;
use crate::ereignis::{bytes_anhaengen, XmlEreignis};
use crate::leser::attribut_v;
use quick_xml::events::BytesStart;
use crate::utils::{lokaler_name, lokaler_name_von, bytes_gleich, tag_attribute, tag_attribute_von, AttributFehler};

verus! {

/// Die Bytes, die `push_attribute` für ein Attribut anhängt: ` key="wert"`
/// (Schlüssel und Wert unverändert).
pub open spec fn attribut_bytes(kv: (Seq<u8>, Seq<u8>)) -> Seq<u8> {
    seq![32u8] + kv.0 + seq![61u8, 34u8] + kv.1 + seq![34u8]
}

/// Alle Attribute hintereinander, wie `extend_attributes` sie anhängt.
pub open spec fn attribute_bytes(attrs: Seq<(Seq<u8>, Seq<u8>)>) -> Seq<u8>
    decreases attrs.len(),
{
    if attrs.len() == 0 {
        Seq::empty()
    } else {
        attribute_bytes(attrs.drop_last()) + attribut_bytes(attrs.last())
    }
}

/// Der Inhalt eines mit `BytesStart::new(tag)` erzeugten Start-Tags, an den
/// die Attribute `attrs` angehängt wurden.
pub open spec fn start_inhalt(tag: Seq<u8>, attrs: Seq<(Seq<u8>, Seq<u8>)>) -> Seq<u8> {
    tag + attribute_bytes(attrs)
}

/// Alle Schlüssel und Werte sind gültiges UTF-8.
pub open spec fn attribute_gueltig(attrs: Seq<(Seq<u8>, Seq<u8>)>) -> bool {
    forall|i: int| 0 <= i < attrs.len() ==> kv_gueltig(#[trigger] attrs[i])
}

pub open spec fn kv_gueltig(kv: (Seq<u8>, Seq<u8>)) -> bool {
    valid_utf8(kv.0) && valid_utf8(kv.1)
}

/// Ein Attribut aus gültigem UTF-8 ist, geschrieben, gültiges UTF-8.
pub proof fn lemma_attribut_gueltig(kv: (Seq<u8>, Seq<u8>))
    requires
        kv_gueltig(kv),
    ensures
        valid_utf8(attribut_bytes(kv)),
{
    lemma_ascii_gueltig(seq![32u8]);
    lemma_ascii_gueltig(seq![61u8, 34u8]);
    lemma_ascii_gueltig(seq![34u8]);
    valid_utf8_concat(seq![32u8], kv.0);
    valid_utf8_concat(seq![32u8] + kv.0, seq![61u8, 34u8]);
    valid_utf8_concat(seq![32u8] + kv.0 + seq![61u8, 34u8], kv.1);
    valid_utf8_concat(seq![32u8] + kv.0 + seq![61u8, 34u8] + kv.1, seq![34u8]);
}

/// Ein Start-Tag aus gültigem UTF-8 ist gültiges UTF-8.
pub proof fn lemma_start_gueltig(tag: Seq<u8>, attrs: Seq<(Seq<u8>, Seq<u8>)>)
    requires
        valid_utf8(tag),
        attribute_gueltig(attrs),
    ensures
        valid_utf8(start_inhalt(tag, attrs)),
    decreases attrs.len(),
{
    if attrs.len() > 0 {
        let vorne = attrs.drop_last();
        assert(attribute_gueltig(vorne)) by {
            assert forall|i: int| 0 <= i < vorne.len() implies kv_gueltig(#[trigger] vorne[i]) by {
                assert(vorne[i] == attrs[i]);
            }
        }
        lemma_start_gueltig(tag, vorne);
        let kv = attrs.last();
        let j = attrs.len() - 1;
        assert(kv_gueltig(attrs[j]));
        assert(attrs[j] == kv);
        lemma_attribut_gueltig(kv);
        valid_utf8_concat(start_inhalt(tag, vorne), attribut_bytes(kv));
        assert(start_inhalt(tag, attrs) =~= start_inhalt(tag, vorne) + attribut_bytes(kv));
    } else {
        assert(start_inhalt(tag, attrs) =~= tag);
    }
}

/// Welche Attribute übernommen werden: bei `nur == false` die, deren lokaler
/// Name nicht in `namen` steht; bei `nur == true` die, deren lokaler Name in
/// `namen` steht. Ein unlesbares Attribut ist ein Fehler (der Filter packt
/// jedes Attribut aus).
pub open spec fn attribute_filtern(
    attrs: Seq<Option<(Seq<u8>, Seq<u8>)>>,
    namen: Seq<Seq<u8>>,
    nur: bool,
) -> Result<Seq<(Seq<u8>, Seq<u8>)>, ()>
    decreases attrs.len(),
{
    if attrs.len() == 0 {
        Ok(Seq::empty())
    } else {
        match attribute_filtern(attrs.drop_last(), namen, nur) {
            Err(()) => Err(()),
            Ok(vorne) => match attrs.last() {
                None => Err(()),
                Some(kv) => if namen.contains(lokaler_name(kv.0)) == nur {
                    Ok(vorne.push(kv))
                } else {
                    Ok(vorne)
                },
            },
        }
    }
}

/// Die Bytes, die `escape` für einen Text liefert: `<`, `>`, `&`, `'`, `"`
/// werden zu Entitäten, alle anderen Bytes bleiben.
pub open spec fn maskiert_byte(b: u8) -> Seq<u8> {
    if b == 60u8 {
        seq![38u8, 108u8, 116u8, 59u8]
    } else if b == 62u8 {
        seq![38u8, 103u8, 116u8, 59u8]
    } else if b == 38u8 {
        seq![38u8, 97u8, 109u8, 112u8, 59u8]
    } else if b == 39u8 {
        seq![38u8, 97u8, 112u8, 111u8, 115u8, 59u8]
    } else if b == 34u8 {
        seq![38u8, 113u8, 117u8, 111u8, 116u8, 59u8]
    } else {
        seq![b]
    }
}

pub open spec fn maskiert(s: Seq<u8>) -> Seq<u8>
    decreases s.len(),
{
    if s.len() == 0 {
        Seq::empty()
    } else {
        maskiert(s.drop_last()) + maskiert_byte(s.last())
    }
}

/// `quick_xml::escape::escape`, womit auch `BytesText::new` einen Text
/// maskiert. Vertrag: die Bytes des Ergebnisses sind `maskiert` der Bytes des
/// Texts (die Tabelle in der Dokumentation von `escape`).
#[verifier::external_body]
pub(crate) fn maskieren(s: &str) -> (res: Vec<u8>)
    ensures
        res@ == maskiert(s.spec_bytes()),
{
    quick_xml::escape::escape(s).as_bytes().to_vec()
}

/// `BytesStart::push_attribute` mit rohem Schlüssel und Wert, auf einem
/// leeren Start-Tag, dessen Bytes danach an `inhalt` angehängt werden.
/// Vertrag: angehängt wird ` key="wert"`, beides unverändert (nicht maskiert).
#[verifier::external_body]
pub(crate) fn attribut_anhaengen(inhalt: &mut Vec<u8>, key: &[u8], wert: &[u8])
    ensures
        final(inhalt)@ == old(inhalt)@ + attribut_bytes((key@, wert@)),
{
    let mut s = BytesStart::new("");
    s.push_attribute((key, wert));
    inhalt.extend_from_slice(&s);
}

/// Ob der lokale Name eines Schlüssels in der Namensliste steht.
fn name_in(key: &[u8], namen: &Vec<&str>) -> (res: bool)
    ensures
        res == namen@.map_values(|n: &str| n.spec_bytes()).contains(lokaler_name(key@)),
{
    let l = lokaler_name_von(key);
    let ghost nb = namen@.map_values(|n: &str| n.spec_bytes());
    let mut i: usize = 0;
    while i < namen.len()
        invariant
            i <= namen@.len(),
            nb == namen@.map_values(|n: &str| n.spec_bytes()),
            l@ == lokaler_name(key@),
            forall|j: int| 0 <= j < i ==> nb[j] != l@,
        decreases namen@.len() - i,
    {
        if bytes_gleich(l.as_slice(), namen[i].as_bytes()) {
            assert(nb[i as int] == l@);
            return true;
        }
        i = i + 1;
    }
    assert forall|x: Seq<u8>| nb.contains(x) implies x != l@ by {
        let j = choose|j: int| 0 <= j < nb.len() && nb[j] == x;
    }
    false
}

/// Erzeugt den Start-Tag `tag` mit den gefilterten Attributen des Tags `e`
/// (siehe [`attribute_filtern`]).
pub fn start_mit_attributen(tag: &[u8], e: &XmlEreignis, namen: &Vec<&str>, nur: bool)
    -> (res: Result<Vec<u8>, AttributFehler>)
    ensures
        match res {
            Ok(inhalt) => attribute_filtern(tag_attribute(e@), namen@.map_values(|n: &str| n.spec_bytes()), nur)
                matches Ok(attrs) && inhalt@ == start_inhalt(tag@, attrs)
                && (valid_utf8(tag@) ==> valid_utf8(inhalt@)),
            Err(_) => attribute_filtern(tag_attribute(e@), namen@.map_values(|n: &str| n.spec_bytes()), nur) is Err,
        },
{
    let attrs = tag_attribute_von(e);
    let ghost av = attrs@.map_values(|l: Result<(Vec<u8>, Vec<u8>), ()>| attribut_v(l));
    let ghost nb = namen@.map_values(|n: &str| n.spec_bytes());
    let mut inhalt: Vec<u8> = Vec::new();
    bytes_anhaengen(&mut inhalt, tag);
    let ghost mut behalten: Seq<(Seq<u8>, Seq<u8>)> = Seq::empty();
    let mut i: usize = 0;
    assert(av.subrange(0, 0) =~= Seq::<Option<(Seq<u8>, Seq<u8>)>>::empty());
    while i < attrs.len()
        invariant
            av == attrs@.map_values(|l: Result<(Vec<u8>, Vec<u8>), ()>| attribut_v(l)),
            av == tag_attribute(e@),
            nb == namen@.map_values(|n: &str| n.spec_bytes()),
            i <= attrs@.len(),
            attribute_filtern(av.subrange(0, i as int), nb, nur) == Ok::<Seq<(Seq<u8>, Seq<u8>)>, ()>(behalten),
            inhalt@ == start_inhalt(tag@, behalten),
            valid_utf8(e.inhalt@) ==> crate::leser::attribute_wohlgeformt(av),
            valid_utf8(e.inhalt@) ==> attribute_gueltig(behalten),
        decreases attrs@.len() - i,
    {
        assert(av.subrange(0, i + 1).drop_last() =~= av.subrange(0, i as int));
        match &attrs[i] {
            Err(_) => {
                assert(attribute_filtern(av, nb, nur) is Err) by {
                    lemma_filtern_fehler_bleibt(av, nb, nur, i + 1);
                }
                return Err(AttributFehler);
            },
            Ok(kv) => {
                if name_in(kv.0.as_slice(), namen) == nur {
                    attribut_anhaengen(&mut inhalt, kv.0.as_slice(), kv.1.as_slice());
                    proof {
                        assert(behalten.push((kv.0@, kv.1@)).drop_last() =~= behalten);
                        if valid_utf8(e.inhalt@) {
                            assert(av[i as int] == Some((kv.0@, kv.1@)));
                            assert(kv_gueltig((kv.0@, kv.1@)));
                            assert forall|j: int| 0 <= j < behalten.len() + 1 implies
                                kv_gueltig(#[trigger] behalten.push((kv.0@, kv.1@))[j]) by {
                                if j < behalten.len() {
                                    assert(behalten.push((kv.0@, kv.1@))[j] == behalten[j]);
                                }
                            }
                        }
                        behalten = behalten.push((kv.0@, kv.1@));
                    }
                }
            },
        }
        i = i + 1;
    }
    assert(av.subrange(0, i as int) =~= av);
    proof {
        if valid_utf8(tag@) {
            if !valid_utf8(e.inhalt@) {
                assert(av == seq![None::<(Seq<u8>, Seq<u8>)>]);
                assert(av.subrange(0, 1).drop_last() =~= Seq::<Option<(Seq<u8>, Seq<u8>)>>::empty());
            }
            lemma_start_gueltig(tag@, behalten);
        }
    }
    Ok(inhalt)
}

/// Ist das Filtern eines Anfangs gescheitert, scheitert es auch am Ganzen.
pub proof fn lemma_filtern_fehler_bleibt(
    attrs: Seq<Option<(Seq<u8>, Seq<u8>)>>,
    namen: Seq<Seq<u8>>,
    nur: bool,
    n: int,
)
    requires
        0 <= n <= attrs.len(),
        attribute_filtern(attrs.subrange(0, n), namen, nur) is Err,
    ensures
        attribute_filtern(attrs, namen, nur) is Err,
    decreases attrs.len() - n,
{
    if n < attrs.len() {
        assert(attrs.subrange(0, n + 1).drop_last() =~= attrs.subrange(0, n));
        lemma_filtern_fehler_bleibt(attrs, namen, nur, n + 1);
    } else {
        assert(attrs.subrange(0, n) =~= attrs);
    }
}

} // verus!
