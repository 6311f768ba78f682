//! Der Tera-Motor: ein `<tera src=".." name="..">`-Tag nennt eine
//! TOML-Konfiguration; der Tag wird entfernt und das übrige Dokument als
//! Tera-Vorlage mit dieser Konfiguration dargestellt.

use vstd::prelude::*;
use crate::leser::{lemma_lesung_gueltig, lesungen_wohlgeformt};
use vstd::utf8::*;
use vstd::string::{StringExecFns, StringSliceAdditionalSpecFns};
use crate::ereignis::{ereignis_bytes, ereignis_schreiben, XmlEreignisV};
use crate::fehler::{FehlerArt, VehaFehler};
use crate::leser::{erste_meldung, lemma_erste_meldung, lesung_v, lesungen, lesungen_v, lesungen_voll, str_aus_utf8, xml_lesefolge, xml_lesungen};
use crate::pfad::{verbinden, verbunden};
use crate::tera_bruecke::{kontext_name, kontext_neu, rendern, tera_aufnahme_ok, tera_darstellung, tera_gelingt, toml_einfuegen, toml_gueltig, vorlage_aufnehmen, vorlagen_neu, Kontext, Vorlagen};
use crate::tomlmotor::{attribute_entschluesselt, attribute_lesen_entschluesselt, wert_zu, wert_zu_von};
use crate::utils::{ist_ende, ist_ende_von, ist_start, ist_start_von, tag_attribute};

verus! {

/// Zustand beim Lesen: Ausgabe ohne die `<tera>`-Tags und die zuletzt
/// genannte Konfiguration (Name, Pfad).
pub struct TeraZustand {
    pub ausgabe: Seq<u8>,
    pub konfig: Option<(Option<Seq<char>>, Seq<char>)>,
}

/// Wie das Sammeln des `<tera>`-Tags ein Ereignis (oder einen Lesefehler) verarbeitet.
pub open spec fn tera_schritt(dir: Seq<char>, z: TeraZustand, l: Option<XmlEreignisV>) -> Result<TeraZustand, FehlerArt> {
    match l {
        None => Err(FehlerArt::Xml),
        Some(e) => if ist_start(e, "tera".spec_bytes()) {
            match attribute_entschluesselt(tag_attribute(e)) {
                Err(()) => Err(FehlerArt::Attribut),
                Ok(attrs) => match wert_zu(attrs, "src".spec_bytes()) {
                    None => Err(FehlerArt::KeinSrc),
                    Some(src) => Ok(TeraZustand {
                        ausgabe: z.ausgabe,
                        konfig: Some((wert_zu(attrs, "name".spec_bytes()), verbunden(dir, src))),
                    }),
                },
            }
        } else if ist_ende(e, "tera".spec_bytes()) {
            Ok(z)
        } else {
            Ok(TeraZustand { ausgabe: z.ausgabe + ereignis_bytes(e), konfig: z.konfig })
        },
    }
}

/// Das Sammeln über alle Lesungen, Ereignis für Ereignis; der erste Fehler bricht ab.
pub open spec fn tera_lauf(dir: Seq<char>, s: Seq<Option<XmlEreignisV>>) -> Result<TeraZustand, FehlerArt>
    decreases s.len(),
{
    if s.len() == 0 {
        Ok(TeraZustand { ausgabe: Seq::empty(), konfig: None })
    } else {
        match tera_lauf(dir, s.drop_last()) {
            Ok(z) => tera_schritt(dir, z, s.last()),
            Err(f) => Err(f),
        }
    }
}

/// Die Konfiguration eines `<tera>`-Tags: sein Name und sein `src`, mit `dir`
/// verbunden; ein Fehler, wenn ein Attribut sich nicht lesen lässt oder
/// `src` fehlt.
pub open spec fn tera_konfig_von(dir: Seq<char>, e: XmlEreignisV) -> Result<(Option<Seq<char>>, Seq<char>), FehlerArt> {
    match attribute_entschluesselt(tag_attribute(e)) {
        Err(()) => Err(FehlerArt::Attribut),
        Ok(attrs) => match wert_zu(attrs, "src".spec_bytes()) {
            None => Err(FehlerArt::KeinSrc),
            Some(src) => Ok((wert_zu(attrs, "name".spec_bytes()), verbunden(dir, src))),
        },
    }
}

/// An dieser Lesung bricht das Sammeln ab: ein Lesefehler oder ein
/// `<tera>`-Tag ohne lesbare Konfiguration.
pub open spec fn tera_bruch(dir: Seq<char>, l: Option<XmlEreignisV>) -> bool {
    match l {
        None => true,
        Some(e) => ist_start(e, "tera".spec_bytes()) && tera_konfig_von(dir, e) is Err,
    }
}

/// Der Fehler einer Lesung, an der das Sammeln abbricht.
pub open spec fn tera_fehler(dir: Seq<char>, l: Option<XmlEreignisV>) -> FehlerArt {
    match l {
        None => FehlerArt::Xml,
        Some(e) => match tera_konfig_von(dir, e) {
            Err(f) => f,
            Ok(_) => FehlerArt::Xml,
        },
    }
}

/// `i` ist die erste Stelle, an der das Sammeln abbricht.
pub open spec fn erster_tera_bruch(dir: Seq<char>, s: Seq<Option<XmlEreignisV>>, i: int) -> bool {
    0 <= i < s.len() && tera_bruch(dir, s[i]) && forall|k: int| 0 <= k < i ==> !#[trigger] tera_bruch(dir, s[k])
}

/// Was eine Lesung zur Ausgabe beiträgt: jedes Ereignis außer `<tera>` und
/// `</tera>` mit seinen Bytes.
pub open spec fn tera_stueck(l: Option<XmlEreignisV>) -> Seq<u8> {
    match l {
        Some(e) => if !ist_start(e, "tera".spec_bytes()) && !ist_ende(e, "tera".spec_bytes()) {
            ereignis_bytes(e)
        } else {
            Seq::empty()
        },
        None => Seq::empty(),
    }
}

/// Die Konfiguration des letzten `<tera>`-Tags, wenn es einen gibt.
pub open spec fn letzte_tera_konfig(dir: Seq<char>, s: Seq<Option<XmlEreignisV>>) -> Option<(Option<Seq<char>>, Seq<char>)>
    decreases s.len(),
{
    if s.len() == 0 {
        None
    } else {
        match s.last() {
            Some(e) => if ist_start(e, "tera".spec_bytes()) {
                match tera_konfig_von(dir, e) {
                    Ok(k) => Some(k),
                    Err(_) => None,
                }
            } else {
                letzte_tera_konfig(dir, s.drop_last())
            },
            None => letzte_tera_konfig(dir, s.drop_last()),
        }
    }
}

/// Das Sammeln, direkt gesagt: bricht es irgendwo ab, der Fehler der ersten
/// solchen Stelle; sonst alle Ereignisse außer `<tera>` und `</tera>` und die
/// Konfiguration des letzten `<tera>`-Tags.
pub open spec fn tera_ergebnis(dir: Seq<char>, s: Seq<Option<XmlEreignisV>>) -> Result<TeraZustand, FehlerArt> {
    if exists|i: int| erster_tera_bruch(dir, s, i) {
        let i = choose|i: int| erster_tera_bruch(dir, s, i);
        Err(tera_fehler(dir, s[i]))
    } else {
        Ok(TeraZustand {
            ausgabe: s.map_values(|l: Option<XmlEreignisV>| tera_stueck(l)).flatten(),
            konfig: letzte_tera_konfig(dir, s),
        })
    }
}

proof fn lemma_erster_tera_bruch(dir: Seq<char>, s: Seq<Option<XmlEreignisV>>, i: int)
    requires
        0 <= i < s.len(),
        tera_bruch(dir, s[i]),
    ensures
        exists|j: int| erster_tera_bruch(dir, s, j),
    decreases i,
{
    if forall|k: int| 0 <= k < i ==> !#[trigger] tera_bruch(dir, s[k]) {
        assert(erster_tera_bruch(dir, s, i));
    } else {
        let k = choose|k: int| 0 <= k < i && #[trigger] tera_bruch(dir, s[k]);
        lemma_erster_tera_bruch(dir, s, k);
    }
}

proof fn lemma_erster_tera_bruch_eindeutig(dir: Seq<char>, s: Seq<Option<XmlEreignisV>>, i: int)
    requires
        erster_tera_bruch(dir, s, i),
    ensures
        tera_ergebnis(dir, s) == Err::<TeraZustand, FehlerArt>(tera_fehler(dir, s[i])),
{
    let c = choose|c: int| erster_tera_bruch(dir, s, c);
    if c < i {
        assert(!tera_bruch(dir, s[c]));
    }
    if i < c {
        assert(!tera_bruch(dir, s[i]));
    }
}

/// Der Lauf Ereignis für Ereignis ergibt genau das direkt gesagte Ergebnis.
pub proof fn lemma_tera_direkt(dir: Seq<char>, s: Seq<Option<XmlEreignisV>>)
    ensures
        tera_lauf(dir, s) == tera_ergebnis(dir, s),
    decreases s.len(),
{
    let f = |l: Option<XmlEreignisV>| tera_stueck(l);
    if s.len() == 0 {
        assert(s.map_values(f) =~= Seq::<Seq<u8>>::empty());
        assert(s.map_values(f).flatten() =~= Seq::<u8>::empty());
    } else {
        let v = s.drop_last();
        let n = s.len() - 1;
        lemma_tera_direkt(dir, v);
        assert forall|k: int| 0 <= k < n implies v[k] == s[k] by {}
        assert(s.last() == s[n]);
        if exists|i: int| erster_tera_bruch(dir, v, i) {
            let i = choose|i: int| erster_tera_bruch(dir, v, i);
            assert(erster_tera_bruch(dir, s, i));
            lemma_erster_tera_bruch_eindeutig(dir, v, i);
            lemma_erster_tera_bruch_eindeutig(dir, s, i);
        } else {
            assert forall|k: int| 0 <= k < n implies !#[trigger] tera_bruch(dir, s[k]) by {
                if tera_bruch(dir, s[k]) {
                    assert(tera_bruch(dir, v[k]));
                    lemma_erster_tera_bruch(dir, v, k);
                }
            }
            if tera_bruch(dir, s[n]) {
                assert(erster_tera_bruch(dir, s, n));
                lemma_erster_tera_bruch_eindeutig(dir, s, n);
            } else {
                assert(!exists|i: int| erster_tera_bruch(dir, s, i));
                assert(s.map_values(f) =~= v.map_values(f).push(f(s[n])));
                v.map_values(f).lemma_flatten_push(f(s[n]));
            }
        }
    }
}

/// Ist das Sammeln nach `n` Lesungen gescheitert, bleibt es bei diesem Fehler.
pub proof fn lemma_tera_fehler_bleibt(dir: Seq<char>, s: Seq<Option<XmlEreignisV>>, n: int)
    requires
        0 <= n <= s.len(),
        tera_lauf(dir, s.take(n)) is Err,
    ensures
        tera_lauf(dir, s) == tera_lauf(dir, s.take(n)),
    decreases s.len() - n,
{
    if n < s.len() {
        assert(s.take(n + 1).drop_last() =~= s.take(n));
        lemma_tera_fehler_bleibt(dir, s, n + 1);
    } else {
        assert(s.take(n) =~= s);
    }
}

/// Was das Lesen ergibt: das Dokument ohne `<tera>`-Tags als Text und die
/// zuletzt genannte Konfiguration (Name, Pfad), falls es eine gibt.
#[derive(Debug)]
pub struct TeraSammlung {
    pub text: String,
    pub konfig: Option<(Option<String>, String)>,
}

pub open spec fn konfig_v(k: Option<(Option<String>, String)>) -> Option<(Option<Seq<char>>, Seq<char>)> {
    match k {
        None => None,
        Some(p) => Some((match p.0 { Some(n) => Some(n@), None => None }, p.1@)),
    }
}

/// Entfernt die `<tera>`-Tags eines Dokuments (samt `</tera>`) und merkt sich
/// die Konfiguration des letzten: `src` mit `base_dir` verbunden und `name`.
/// Alle anderen Ereignisse bleiben, auch ein leeres `<tera/>`. Ein `<tera>`
/// ohne `src` ist ein Fehler.
pub fn tera_tag_sammeln(input_xhtml: &str, base_dir: &str) -> (res: Result<TeraSammlung, VehaFehler>)
    ensures
        match res {
            Ok(r) => tera_ergebnis(base_dir@, xml_lesungen(input_xhtml@, false)) matches Ok(z)
                && encode_utf8(r.text@) == z.ausgabe && konfig_v(r.konfig) == z.konfig,
            Err(f) => match tera_ergebnis(base_dir@, xml_lesungen(input_xhtml@, false)) {
                Err(g) => f.art() == g && (g == FehlerArt::KeinSrc ==> f.tag_text() == Some("tera"@))
                    && (f matches VehaFehler::Xml(m) ==> m@ == erste_meldung(xml_lesefolge(input_xhtml@, false))),
                Ok(z) => !valid_utf8(z.ausgabe) && f.art() == FehlerArt::KeinUtf8,
            },
        },
{
    proof { lemma_tera_direkt(base_dir@, xml_lesungen(input_xhtml@, false)); }
    let ls = lesungen(input_xhtml, false);
    let ghost s = lesungen_v(ls@);
    let mut ausgabe: Vec<u8> = Vec::new();
    let mut konfig: Option<(Option<String>, String)> = None;
    let mut i: usize = 0;
    assert(s.take(0) =~= Seq::<Option<XmlEreignisV>>::empty());
    while i < ls.len()
        invariant
            s == lesungen_v(ls@),
            s == xml_lesungen(input_xhtml@, false),
            lesungen_voll(ls@) == xml_lesefolge(input_xhtml@, false),
            forall|k: int| 0 <= k < i ==> ls@[k] is Ok,
            lesungen_wohlgeformt(s),
            tera_lauf(base_dir@, s) == tera_ergebnis(base_dir@, s),
            i <= ls@.len(),
            tera_lauf(base_dir@, s.take(i as int)) == Ok::<TeraZustand, FehlerArt>(
                TeraZustand { ausgabe: ausgabe@, konfig: konfig_v(konfig) }),
        decreases ls@.len() - i,
    {
        assert(s.take(i + 1).drop_last() =~= s.take(i as int));
        assert(s.take(i + 1).last() == lesung_v(ls@[i as int]));
        match &ls[i] {
            Err(f) => {
                proof {
                    lemma_tera_fehler_bleibt(base_dir@, s, i as int + 1);
                    lemma_erste_meldung(ls@, i as int);
                }
                return Err(VehaFehler::Xml(f.meldung.clone()));
            },
            Ok(e) => {
                if ist_start_von(e, "tera") {
                    let attrs = match attribute_lesen_entschluesselt(e) {
                        Ok(a) => a,
                        Err(f) => {
                            proof { lemma_tera_fehler_bleibt(base_dir@, s, i as int + 1); }
                            return Err(f);
                        },
                    };
                    let src = match wert_zu_von(&attrs, "src") {
                        Some(q) => q,
                        None => {
                            proof { lemma_tera_fehler_bleibt(base_dir@, s, i as int + 1); }
                            let t = "tera";
                            proof {
                                reveal_strlit("tera");
                            }
                            return Err(VehaFehler::KeinSrc(String::from_str(t)));
                        },
                    };
                    let pfad = verbinden(base_dir, src.as_str());
                    let name = wert_zu_von(&attrs, "name");
                    konfig = Some((name, pfad));
                } else if ist_ende_von(e, "tera") {
                } else {
                    proof { lemma_lesung_gueltig(s, ls@, i as int); }
                    ereignis_schreiben(&mut ausgabe, e);
                }
            },
        }
        i = i + 1;
    }
    assert(s.take(i as int) =~= s);
    match str_aus_utf8(ausgabe.as_slice()) {
        None => Err(VehaFehler::KeinUtf8),
        Some(t) => {
            proof { decode_utf8_encode_utf8(ausgabe@); }
            Ok(TeraSammlung { text: String::from_str(t), konfig })
        },
    }
}

/// Der Schlüssel einer Konfiguration: ihr Name, ohne Namen `config`.
pub fn kontext_schluessel_von(name: &Option<String>) -> (res: String)
    ensures
        res@ == kontext_name(match name { Some(n) => Some(n@), None => None }),
{
    match name {
        Some(n) => n.clone(),
        None => {
            let k = "config";
            proof {
                reveal_strlit("config");
            }
            String::from_str(k)
        },
    }
}

/// Bereitet die Darstellung vor: eine Tera-Instanz, die genau die Vorlage
/// `template.xhtml` mit dem Dokument `vorlage` hält, und einen Kontext, der
/// unter dem Namen (ohne Namen unter `config`) den Wert des TOML-Texts hält.
/// Ungültiges TOML ist ein TOML-Fehler, eine Vorlage, die Tera nicht
/// aufnimmt, ein Tera-Fehler.
pub fn tera_vorbereiten(vorlage: &str, name: &Option<String>, toml_text: &str)
    -> (res: Result<(Vorlagen, Kontext), VehaFehler>)
    ensures
        match res {
            Ok((t, c)) => {
                &&& toml_gueltig(toml_text@)
                &&& tera_aufnahme_ok(Map::empty(), "template.xhtml"@, vorlage@)
                &&& t.heil()
                &&& t.quellen() == map!["template.xhtml"@ => vorlage@]
                &&& c.inhalt() == map![kontext_name(match name { Some(n) => Some(n@), None => None }) => toml_text@]
            },
            Err(f) => if !toml_gueltig(toml_text@) {
                f.art() == FehlerArt::Toml
            } else {
                !tera_aufnahme_ok(Map::empty(), "template.xhtml"@, vorlage@) && f.art() == FehlerArt::Tera
            },
        },
{
    let schluessel = kontext_schluessel_von(name);
    let mut c = kontext_neu();
    match toml_einfuegen(&mut c, schluessel.as_str(), toml_text) {
        Ok(()) => {},
        Err(m) => return Err(VehaFehler::Toml(m)),
    }
    let mut t = vorlagen_neu();
    assert(t.quellen() =~= Map::<Seq<char>, Seq<char>>::empty());
    match vorlage_aufnehmen(&mut t, "template.xhtml", vorlage) {
        Ok(()) => {},
        Err(m) => return Err(VehaFehler::Tera(m)),
    }
    assert(t.quellen() =~= map!["template.xhtml"@ => vorlage@]);
    assert(c.inhalt() =~= map![schluessel@ => toml_text@]);
    Ok((t, c))
}

/// Die Quelltexte der Tera-Instanz: das Dokument als `template.xhtml`.
pub open spec fn tera_quellen(vorlage: Seq<char>) -> Map<Seq<char>, Seq<char>> {
    map!["template.xhtml"@ => vorlage]
}

/// Der Kontext einer Konfiguration: der TOML-Text unter ihrem Namen (ohne
/// Namen unter `config`).
pub open spec fn tera_kontext(konfig: Option<(Option<Seq<char>>, Seq<char>)>, toml_text: Seq<char>) -> Map<Seq<char>, Seq<char>> {
    match konfig {
        Some((name, _)) => map![kontext_name(name) => toml_text],
        None => Map::empty(),
    }
}

/// Stellt `vorlage` (das Dokument ohne `<tera>`-Tags) mit der Konfiguration
/// dar. `konfiguration` ist der Name aus dem Tag und der Text der TOML-Datei;
/// ohne Konfiguration bleibt das Dokument, wie es ist. Sonst wird genau das
/// dargestellt, was [`tera_vorbereiten`] bereitet: die Vorlage
/// `template.xhtml` mit dem Dokument, der TOML-Wert unter dem Namen (ohne
/// Namen unter `config`). Was die Darstellung selbst liefert, hängt von Tera
/// ab; der Vertrag sagt, wann sie gar nicht erst versucht wird.
pub fn process_via_tera(vorlage: String, konfiguration: Option<(Option<String>, String)>)
    -> (res: Result<String, VehaFehler>)
    ensures
        match konfig_v(konfiguration) {
            None => res matches Ok(r) && r@ == vorlage@,
            Some((_, toml_text)) => if !toml_gueltig(toml_text) {
                res matches Err(f) && f.art() == FehlerArt::Toml
            } else if !tera_aufnahme_ok(Map::empty(), "template.xhtml"@, vorlage@) {
                res matches Err(f) && f.art() == FehlerArt::Tera
            } else {
                &&& res matches Err(f) ==> f.art() == FehlerArt::Tera
                &&& res matches Ok(r) ==> tera_darstellung(tera_quellen(vorlage@), "template.xhtml"@,
                    tera_kontext(konfig_v(konfiguration), toml_text), r@)
                &&& tera_gelingt(tera_quellen(vorlage@), "template.xhtml"@,
                    tera_kontext(konfig_v(konfiguration), toml_text)) ==> res is Ok
            },
        },
{
    match konfiguration {
        None => Ok(vorlage),
        Some((name, toml_text)) => {
            let (t, c) = tera_vorbereiten(vorlage.as_str(), &name, toml_text.as_str())?;
            match rendern(&t, "template.xhtml", &c) {
                Ok(r) => Ok(r),
                Err(m) => Err(VehaFehler::Tera(m)),
            }
        },
    }
}

} // verus!
