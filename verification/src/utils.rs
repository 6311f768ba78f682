//! Hilfen für Tags: Namen, lokale Namen und Attribute eines Ereignisses.

use vstd::prelude::*;
use vstd::utf8::*;
use vstd::string::StringSliceAdditionalSpecFns;
use crate::ereignis::{Art, XmlEreignis, XmlEreignisV};
use crate::leser::{attribut_lesungen, attribute_lesen, attribut_v, lesungen, lesungen_v, str_aus_utf8, xml_lesungen};
pub use crate::pfad::endung_mit_sprache_erweitern;

verus! {

/// XML-Leerraum, wie der Leser ihn versteht.
pub open spec fn ist_leerraum(b: u8) -> bool {
    b == 32u8 || b == 13u8 || b == 10u8 || b == 9u8
}

/// Die Länge des Namens am Anfang eines Tag-Inhalts: bis zum ersten Leerraum.
pub open spec fn name_laenge(s: Seq<u8>) -> nat
    decreases s.len(),
{
    if s.len() == 0 || ist_leerraum(s[0]) {
        0
    } else {
        1 + name_laenge(s.drop_first())
    }
}

/// Hinter dem Namen steht das Ende oder ein Leerraum.
pub proof fn lemma_name_ende(s: Seq<u8>)
    ensures
        name_laenge(s) <= s.len(),
        name_laenge(s) == s.len() || ist_leerraum(s[name_laenge(s) as int]),
    decreases s.len(),
{
    if s.len() > 0 && !ist_leerraum(s[0]) {
        lemma_name_ende(s.drop_first());
        assert(s.drop_first()[name_laenge(s.drop_first()) as int] == s[name_laenge(s) as int]
            || name_laenge(s.drop_first()) == s.drop_first().len());
    }
}

/// Was nach dem ersten `:` eines Namens steht, falls er einen hat.
pub open spec fn nach_doppelpunkt(q: Seq<u8>) -> Option<Seq<u8>>
    decreases q.len(),
{
    if q.len() == 0 {
        None
    } else if q[0] == 58u8 {
        Some(q.drop_first())
    } else {
        nach_doppelpunkt(q.drop_first())
    }
}

/// Der lokale Teil eines qualifizierten Namens: alles nach dem ersten `:`,
/// ohne `:` der ganze Name.
pub open spec fn lokaler_name(q: Seq<u8>) -> Seq<u8> {
    match nach_doppelpunkt(q) {
        Some(r) => r,
        None => q,
    }
}

/// Der qualifizierte Name eines Ereignisses: bei Start- und Leer-Tags der
/// Name vor den Attributen, sonst der ganze Inhalt.
pub open spec fn ereignis_name(e: XmlEreignisV) -> Seq<u8> {
    if e.art == Art::Start || e.art == Art::Leer {
        e.inhalt.subrange(0, name_laenge(e.inhalt) as int)
    } else {
        e.inhalt
    }
}

pub open spec fn ereignis_lokaler_name(e: XmlEreignisV) -> Seq<u8> {
    lokaler_name(ereignis_name(e))
}

/// `e` ist ein Start-Tag mit dem lokalen Namen `name`.
pub open spec fn ist_start(e: XmlEreignisV, name: Seq<u8>) -> bool {
    e.art == Art::Start && ereignis_lokaler_name(e) == name
}

/// `e` ist ein End-Tag mit dem lokalen Namen `name`.
pub open spec fn ist_ende(e: XmlEreignisV, name: Seq<u8>) -> bool {
    e.art == Art::Ende && ereignis_lokaler_name(e) == name
}

/// Die Attribute eines Start- oder Leer-Tags, wie der Attribut-Iterator des
/// Lesers sie liefert; für Inhalt, der kein UTF-8 ist, ein einziger Fehler.
pub open spec fn tag_attribute(e: XmlEreignisV) -> Seq<Option<(Seq<u8>, Seq<u8>)>> {
    if valid_utf8(e.inhalt) {
        attribut_lesungen(decode_utf8(e.inhalt), name_laenge(e.inhalt))
    } else {
        seq![None]
    }
}

/// Sucht wie `attributes().find(|a| a.unwrap().key.local_name() == name)`:
/// das erste Attribut mit diesem lokalen Namen; ein Attributfehler davor ist
/// ein Fehler.
pub open spec fn attribut_suche(attrs: Seq<Option<(Seq<u8>, Seq<u8>)>>, name: Seq<u8>) -> Result<Option<Seq<u8>>, ()>
    decreases attrs.len(),
{
    if attrs.len() == 0 {
        Ok(None)
    } else {
        match attrs[0] {
            None => Err(()),
            Some(kv) => if lokaler_name(kv.0) == name {
                Ok(Some(kv.1))
            } else {
                attribut_suche(attrs.drop_first(), name)
            },
        }
    }
}

/// Der rohe Wert des ersten Attributs mit dem lokalen Namen `name`.
pub open spec fn attributwert(e: XmlEreignisV, name: Seq<u8>) -> Result<Option<Seq<u8>>, ()> {
    attribut_suche(tag_attribute(e), name)
}

/// Gleiche UTF-8-Bytes bedeuten gleiche Zeichen.
pub proof fn lemma_kodierung_injektiv(a: Seq<char>, b: Seq<char>)
    ensures
        (encode_utf8(a) == encode_utf8(b)) == (a == b),
{
    encode_utf8_decode_utf8(a);
    encode_utf8_decode_utf8(b);
}

/// Ein Attribut des Tags ließ sich nicht lesen.
#[derive(Debug)]
pub struct AttributFehler;

/// Vergleicht zwei Bytefolgen.
pub fn bytes_gleich(a: &[u8], b: &[u8]) -> (res: bool)
    ensures
        res == (a@ == b@),
{
    if a.len() != b.len() {
        return false;
    }
    let mut i: usize = 0;
    while i < a.len()
        invariant
            a@.len() == b@.len(),
            i <= a@.len(),
            forall|j: int| 0 <= j < i ==> a@[j] == b@[j],
        decreases a@.len() - i,
    {
        if a[i] != b[i] {
            return false;
        }
        i = i + 1;
    }
    assert(a@ =~= b@);
    true
}

/// Die Länge des Namens am Anfang eines Tag-Inhalts.
pub fn name_laenge_von(s: &[u8]) -> (n: usize)
    ensures
        n == name_laenge(s@),
        n <= s@.len(),
{
    let mut i: usize = 0;
    assert(s@.subrange(0, s@.len() as int) =~= s@);
    while i < s.len() && !(s[i] == 32u8 || s[i] == 13u8 || s[i] == 10u8 || s[i] == 9u8)
        invariant
            i <= s@.len(),
            name_laenge(s@) == i + name_laenge(s@.subrange(i as int, s@.len() as int)),
        decreases s@.len() - i,
    {
        assert(s@.subrange(i as int, s@.len() as int).drop_first()
            =~= s@.subrange(i + 1, s@.len() as int));
        i = i + 1;
    }
    assert(s@.subrange(0, s@.len() as int) =~= s@);
    i
}

/// Der lokale Teil eines qualifizierten Namens.
pub fn lokaler_name_von(q: &[u8]) -> (res: Vec<u8>)
    ensures
        res@ == lokaler_name(q@),
{
    let mut i: usize = 0;
    assert(q@.subrange(0, q@.len() as int) =~= q@);
    while i < q.len() && q[i] != 58u8
        invariant
            i <= q@.len(),
            nach_doppelpunkt(q@) == nach_doppelpunkt(q@.subrange(i as int, q@.len() as int)),
        decreases q@.len() - i,
    {
        assert(q@.subrange(i as int, q@.len() as int).drop_first()
            =~= q@.subrange(i + 1, q@.len() as int));
        i = i + 1;
    }
    assert(q@.subrange(0, q@.len() as int) =~= q@);
    if i == q.len() {
        let mut res: Vec<u8> = Vec::new();
        crate::ereignis::bytes_anhaengen(&mut res, q);
        proof {
            assert(res@ =~= q@);
        }
        res
    } else {
        let mut res: Vec<u8> = Vec::new();
        let mut j: usize = i + 1;
        while j < q.len()
            invariant
                i < q@.len(),
                i + 1 <= j <= q@.len(),
                res@ == q@.subrange(i + 1, j as int),
            decreases q@.len() - j,
        {
            res.push(q[j]);
            j = j + 1;
            assert(res@ =~= q@.subrange(i + 1, j as int));
        }
        proof {
            assert(q@.subrange(i as int, q@.len() as int).drop_first()
                =~= q@.subrange(i + 1, q@.len() as int));
        }
        res
    }
}

/// Der qualifizierte Name eines Ereignisses.
pub fn ereignis_name_von(e: &XmlEreignis) -> (res: Vec<u8>)
    ensures
        res@ == ereignis_name(e@),
{
    if e.art == Art::Start || e.art == Art::Leer {
        let n = name_laenge_von(e.inhalt.as_slice());
        let mut name: Vec<u8> = Vec::new();
        let mut i: usize = 0;
        while i < n
            invariant
                n <= e.inhalt@.len(),
                i <= n,
                name@ == e.inhalt@.subrange(0, i as int),
            decreases n - i,
        {
            name.push(e.inhalt[i]);
            i = i + 1;
            assert(name@ =~= e.inhalt@.subrange(0, i as int));
        }
        name
    } else {
        let mut name: Vec<u8> = Vec::new();
        crate::ereignis::bytes_anhaengen(&mut name, e.inhalt.as_slice());
        assert(name@ =~= e.inhalt@);
        name
    }
}

/// Der lokale Name eines Ereignisses (bei Start- und Leer-Tags der des Tags).
pub fn ereignis_lokaler_name_von(e: &XmlEreignis) -> (res: Vec<u8>)
    ensures
        res@ == ereignis_lokaler_name(e@),
{
    let name = ereignis_name_von(e);
    lokaler_name_von(name.as_slice())
}

/// `e` ist ein Start-Tag mit dem lokalen Namen `name`.
pub fn ist_start_von(e: &XmlEreignis, name: &str) -> (res: bool)
    ensures
        res == ist_start(e@, name.spec_bytes()),
{
    if e.art != Art::Start {
        return false;
    }
    let l = ereignis_lokaler_name_von(e);
    bytes_gleich(l.as_slice(), name.as_bytes())
}

/// `e` ist ein End-Tag mit dem lokalen Namen `name`.
pub fn ist_ende_von(e: &XmlEreignis, name: &str) -> (res: bool)
    ensures
        res == ist_ende(e@, name.spec_bytes()),
{
    if e.art != Art::Ende {
        return false;
    }
    let l = ereignis_lokaler_name_von(e);
    bytes_gleich(l.as_slice(), name.as_bytes())
}

/// Alle Attribute eines Start- oder Leer-Tags.
pub fn tag_attribute_von(e: &XmlEreignis) -> (res: Vec<Result<(Vec<u8>, Vec<u8>), ()>>)
    ensures
        res@.map_values(|l: Result<(Vec<u8>, Vec<u8>), ()>| attribut_v(l)) == tag_attribute(e@),
        valid_utf8(e.inhalt@) ==> crate::leser::attribute_wohlgeformt(tag_attribute(e@)),
{
    match str_aus_utf8(e.inhalt.as_slice()) {
        Some(s) => {
            proof {
                decode_utf8_encode_utf8(e.inhalt@);
                lemma_name_ende(e.inhalt@);
            }
            let n = name_laenge_von(e.inhalt.as_slice());
            attribute_lesen(s, n)
        },
        None => {
            let mut v: Vec<Result<(Vec<u8>, Vec<u8>), ()>> = Vec::new();
            v.push(Err(()));
            assert(v@.map_values(|l: Result<(Vec<u8>, Vec<u8>), ()>| attribut_v(l)) =~= seq![None]);
            v
        },
    }
}

/// Der rohe Wert des ersten Attributs mit dem lokalen Namen `name`, als Bytes.
pub fn attributwert_bytes(e: &XmlEreignis, name: &str) -> (res: Result<Option<Vec<u8>>, AttributFehler>)
    ensures
        match res {
            Ok(Some(w)) => attributwert(e@, name.spec_bytes()) == Ok::<Option<Seq<u8>>, ()>(Some(w@)),
            Ok(None) => attributwert(e@, name.spec_bytes()) == Ok::<Option<Seq<u8>>, ()>(None),
            Err(_) => attributwert(e@, name.spec_bytes()) is Err,
        },
        valid_utf8(e.inhalt@) ==> (res matches Ok(Some(w)) ==> valid_utf8(w@)),
{
    let attrs = tag_attribute_von(e);
    let ghost av = attrs@.map_values(|l: Result<(Vec<u8>, Vec<u8>), ()>| attribut_v(l));
    let nb = name.as_bytes();
    let mut i: usize = 0;
    assert(av.subrange(0, av.len() as int) =~= av);
    while i < attrs.len()
        invariant
            av == attrs@.map_values(|l: Result<(Vec<u8>, Vec<u8>), ()>| attribut_v(l)),
            av == tag_attribute(e@),
            valid_utf8(e.inhalt@) ==> crate::leser::attribute_wohlgeformt(av),
            nb@ == name.spec_bytes(),
            i <= attrs@.len(),
            attribut_suche(av, nb@) == attribut_suche(av.subrange(i as int, av.len() as int), nb@),
        decreases attrs@.len() - i,
    {
        let ghost rest = av.subrange(i as int, av.len() as int);
        assert(rest[0] == av[i as int]);
        assert(rest.drop_first() =~= av.subrange(i + 1, av.len() as int));
        match &attrs[i] {
            Err(_) => {
                return Err(AttributFehler);
            },
            Ok(kv) => {
                let l = lokaler_name_von(kv.0.as_slice());
                if bytes_gleich(l.as_slice(), nb) {
                    let mut w: Vec<u8> = Vec::new();
                    crate::ereignis::bytes_anhaengen(&mut w, kv.1.as_slice());
                    assert(w@ =~= kv.1@);
                    return Ok(Some(w));
                }
            },
        }
        i = i + 1;
    }
    assert(av.subrange(i as int, av.len() as int) =~= Seq::<Option<(Seq<u8>, Seq<u8>)>>::empty());
    Ok(None)
}

/// Liest den Wert des Attributs `attributename` (lokaler Name) eines Tags.
/// `Ok(None)`, wenn es fehlt; ein Fehler, wenn ein Attribut davor nicht
/// lesbar ist oder der Wert kein UTF-8 ist.
pub fn attributenwert_lesen(element: &XmlEreignis, attributename: &str) -> (res: Result<Option<String>, AttributFehler>)
    ensures
        match res {
            Ok(Some(w)) => attributwert(element@, attributename.spec_bytes())
                == Ok::<Option<Seq<u8>>, ()>(Some(encode_utf8(w@))),
            Ok(None) => attributwert(element@, attributename.spec_bytes()) == Ok::<Option<Seq<u8>>, ()>(None),
            Err(_) => attributwert(element@, attributename.spec_bytes()) is Err
                || (attributwert(element@, attributename.spec_bytes()) matches Ok(Some(w)) && !valid_utf8(w)),
        },
{
    match attributwert_bytes(element, attributename) {
        Err(f) => Err(f),
        Ok(None) => Ok(None),
        Ok(Some(w)) => match str_aus_utf8(w.as_slice()) {
            Some(s) => {
                proof {
                    decode_utf8_encode_utf8(w@);
                }
                Ok(Some(s.to_string()))
            },
            None => Err(AttributFehler),
        },
    }
}

/// Ob der Tag ein Attribut mit dem lokalen Namen `attributename` hat; ein
/// Fehler, wenn ein Attribut davor nicht lesbar ist.
pub fn attribut_vorhanden(element: &XmlEreignis, attributename: &str) -> (res: Result<bool, AttributFehler>)
    ensures
        match res {
            Ok(b) => attributwert(element@, attributename.spec_bytes()) matches Ok(w) && b == w is Some,
            Err(_) => attributwert(element@, attributename.spec_bytes()) is Err,
        },
{
    match attributwert_bytes(element, attributename) {
        Err(f) => Err(f),
        Ok(w) => Ok(w.is_some()),
    }
}

/// Die Start-Tags mit dem lokalen Namen `name` unter den ersten `n`
/// Lesungen, und ob das Lesen vorher an einem Fehler endete.
pub open spec fn gefundene_tags(s: Seq<Option<XmlEreignisV>>, name: Seq<u8>, n: int) -> (Seq<XmlEreignisV>, bool)
    decreases n,
{
    if n <= 0 {
        (Seq::empty(), false)
    } else {
        let (tags, abbruch) = gefundene_tags(s, name, n - 1);
        if abbruch {
            (tags, true)
        } else {
            match s[n - 1] {
                None => (tags, true),
                Some(e) => if ist_start(e, name) { (tags.push(e), false) } else { (tags, false) },
            }
        }
    }
}

pub proof fn lemma_tags_abbruch_bleibt(s: Seq<Option<XmlEreignisV>>, name: Seq<u8>, n: int)
    requires
        0 <= n <= s.len(),
        gefundene_tags(s, name, n).1,
    ensures
        gefundene_tags(s, name, s.len() as int).0 == gefundene_tags(s, name, n).0,
    decreases s.len() - n,
{
    if n < s.len() {
        lemma_tags_abbruch_bleibt(s, name, n + 1);
    }
}

/// Die Start-Tags mit dem lokalen Namen `tag_name` in einem Dokument, in
/// ihrer Reihenfolge, bis zum Ende oder zum ersten Lesefehler.
pub fn find_xml_tags(xml: String, tag_name: &str) -> (res: Vec<XmlEreignis>)
    ensures
        res@.map_values(|e: XmlEreignis| e@) == gefundene_tags(xml_lesungen(xml@, false),
            tag_name.spec_bytes(), xml_lesungen(xml@, false).len() as int).0,
{
    let ls = lesungen(xml.as_str(), false);
    let ghost s = lesungen_v(ls@);
    let mut res: Vec<XmlEreignis> = Vec::new();
    let mut i: usize = 0;
    assert(res@.map_values(|e: XmlEreignis| e@) =~= Seq::<XmlEreignisV>::empty());
    while i < ls.len()
        invariant
            s == lesungen_v(ls@),
            s == xml_lesungen(xml@, false),
            i <= ls@.len(),
            gefundene_tags(s, tag_name.spec_bytes(), i as int) == (res@.map_values(|e: XmlEreignis| e@), false),
        decreases ls@.len() - i,
    {
        assert(s[i as int] == crate::leser::lesung_v(ls@[i as int]));
        match &ls[i] {
            Err(_) => {
                proof { lemma_tags_abbruch_bleibt(s, tag_name.spec_bytes(), i as int + 1); }
                return res;
            },
            Ok(e) => {
                if ist_start_von(e, tag_name) {
                    let mut inhalt: Vec<u8> = Vec::new();
                    crate::ereignis::bytes_anhaengen(&mut inhalt, e.inhalt.as_slice());
                    let ghost alt = res@;
                    res.push(XmlEreignis { art: e.art, inhalt });
                    assert(res@.map_values(|e: XmlEreignis| e@) =~= alt.map_values(|e: XmlEreignis| e@).push(e@));
                }
            },
        }
        i = i + 1;
    }
    res
}

} // verus!
