//! Der TOML-Motor: `<toml src=".." name="..">`-Tags sammeln und entfernen,
//! dann das Dokument als Tera-Vorlage mit den TOML-Konfigurationen darstellen.

use vstd::prelude::*;
use crate::leser::{lemma_lesung_gueltig, lesungen_wohlgeformt};
use vstd::utf8::*;
use vstd::string::{StringExecFns, StringSliceAdditionalSpecFns};
use crate::ereignis::{ereignis_bytes, ereignis_schreiben, XmlEreignis, XmlEreignisV};
use crate::fehler::{FehlerArt, VehaFehler};
use crate::leser::{attribut_v, entschluesseln, erste_meldung, lemma_erste_meldung, lesung_v, lesungen, lesungen_v, lesungen_voll, str_aus_utf8, xml_entschluesselt, xml_lesefolge, xml_lesungen};
use crate::pfad::{endung_mit_sprache_erweitern, mit_sprache, verbinden, verbunden};
use crate::tera_bruecke::{kontext_name, kontext_neu, rendern, tera_aufnahme_ok, tera_darstellung, tera_gelingt, toml_einfuegen, toml_gueltig, vorlage_aufnehmen, vorlagen_neu, Kontext, Vorlagen};
use crate::utils::{attribut_vorhanden, attributwert, bytes_gleich, ist_ende, ist_ende_von, ist_start, ist_start_von, lokaler_name, lokaler_name_von, tag_attribute, tag_attribute_von};

verus! {

/// Die Attribute eines Tags mit lokalem Schlüssel und entmaskiertem Wert;
/// ein unlesbares Attribut oder ein Wert, der sich nicht entmaskieren lässt,
/// ist ein Fehler.
pub open spec fn attribute_entschluesselt(attrs: Seq<Option<(Seq<u8>, Seq<u8>)>>) -> Result<Seq<(Seq<u8>, Seq<char>)>, ()>
    decreases attrs.len(),
{
    if attrs.len() == 0 {
        Ok(Seq::empty())
    } else {
        match attribute_entschluesselt(attrs.drop_last()) {
            Err(()) => Err(()),
            Ok(vorne) => match attrs.last() {
                None => Err(()),
                Some(kv) => match xml_entschluesselt(kv.1) {
                    None => Err(()),
                    Some(w) => Ok(vorne.push((lokaler_name(kv.0), w))),
                },
            },
        }
    }
}

/// Der Wert zu einem Schlüssel; bei mehrfachem Schlüssel der letzte.
pub open spec fn wert_zu(attrs: Seq<(Seq<u8>, Seq<char>)>, k: Seq<u8>) -> Option<Seq<char>>
    decreases attrs.len(),
{
    if attrs.len() == 0 {
        None
    } else if attrs.last().0 == k {
        Some(attrs.last().1)
    } else {
        wert_zu(attrs.drop_last(), k)
    }
}

pub open spec fn attribute_v(v: Seq<(Vec<u8>, String)>) -> Seq<(Seq<u8>, Seq<char>)> {
    v.map_values(|p: (Vec<u8>, String)| (p.0@, p.1@))
}

/// Liest die Attribute eines Tags wie `parse_tag_attrs`.
pub fn attribute_lesen_entschluesselt(e: &XmlEreignis) -> (res: Result<Vec<(Vec<u8>, String)>, VehaFehler>)
    ensures
        match res {
            Ok(v) => attribute_entschluesselt(tag_attribute(e@)) == Ok::<Seq<(Seq<u8>, Seq<char>)>, ()>(attribute_v(v@)),
            Err(f) => attribute_entschluesselt(tag_attribute(e@)) is Err && f.art() == FehlerArt::Attribut,
        },
{
    let attrs = tag_attribute_von(e);
    let ghost av = attrs@.map_values(|l: Result<(Vec<u8>, Vec<u8>), ()>| attribut_v(l));
    let mut res: Vec<(Vec<u8>, String)> = Vec::new();
    let mut i: usize = 0;
    assert(av.subrange(0, 0) =~= Seq::<Option<(Seq<u8>, Seq<u8>)>>::empty());
    assert(attribute_v(res@) =~= Seq::<(Seq<u8>, Seq<char>)>::empty());
    while i < attrs.len()
        invariant
            av == attrs@.map_values(|l: Result<(Vec<u8>, Vec<u8>), ()>| attribut_v(l)),
            av == tag_attribute(e@),
            i <= attrs@.len(),
            attribute_entschluesselt(av.subrange(0, i as int)) == Ok::<Seq<(Seq<u8>, Seq<char>)>, ()>(attribute_v(res@)),
        decreases attrs@.len() - i,
    {
        assert(av.subrange(0, i + 1).drop_last() =~= av.subrange(0, i as int));
        match &attrs[i] {
            Err(_) => {
                proof { lemma_entschluesselt_fehler_bleibt(av, i as int + 1); }
                return Err(VehaFehler::Attribut);
            },
            Ok(kv) => {
                match entschluesseln(kv.1.as_slice()) {
                    Err(_) => {
                        proof { lemma_entschluesselt_fehler_bleibt(av, i as int + 1); }
                        return Err(VehaFehler::Attribut);
                    },
                    Ok(w) => {
                        let k = lokaler_name_von(kv.0.as_slice());
                        let ghost alt = res@;
                        res.push((k, w));
                        assert(attribute_v(res@) =~= attribute_v(alt).push((res@.last().0@, res@.last().1@)));
                    },
                }
            },
        }
        i = i + 1;
    }
    assert(av.subrange(0, i as int) =~= av);
    Ok(res)
}

/// Ist das Entschlüsseln nach `n` Attributen gescheitert, bleibt es bei diesem Fehler.
pub proof fn lemma_entschluesselt_fehler_bleibt(attrs: Seq<Option<(Seq<u8>, Seq<u8>)>>, n: int)
    requires
        0 <= n <= attrs.len(),
        attribute_entschluesselt(attrs.subrange(0, n)) is Err,
    ensures
        attribute_entschluesselt(attrs) is Err,
    decreases attrs.len() - n,
{
    if n < attrs.len() {
        assert(attrs.subrange(0, n + 1).drop_last() =~= attrs.subrange(0, n));
        lemma_entschluesselt_fehler_bleibt(attrs, n + 1);
    } else {
        assert(attrs.subrange(0, n) =~= attrs);
    }
}

/// Der Wert zu einem Schlüssel in gelesenen Attributen.
pub fn wert_zu_von(attrs: &Vec<(Vec<u8>, String)>, k: &str) -> (res: Option<String>)
    ensures
        match wert_zu(attribute_v(attrs@), k.spec_bytes()) {
            Some(w) => res matches Some(r) && r@ == w,
            None => res is None,
        },
{
    let ghost av = attribute_v(attrs@);
    let mut i = attrs.len();
    assert(av.subrange(0, i as int) =~= av);
    while i > 0
        invariant
            av == attribute_v(attrs@),
            i <= attrs@.len(),
            wert_zu(av, k.spec_bytes()) == wert_zu(av.subrange(0, i as int), k.spec_bytes()),
        decreases i,
    {
        assert(av.subrange(0, i as int).drop_last() =~= av.subrange(0, i - 1));
        if bytes_gleich(attrs[i - 1].0.as_slice(), k.as_bytes()) {
            return Some(attrs[i - 1].1.clone());
        }
        i = i - 1;
    }
    None
}

/// Zustand beim Sammeln: Ausgabe ohne die `<toml>`-Tags und die gesammelten
/// Konfigurationen (Name, Pfad).
pub struct TomlZustand {
    pub ausgabe: Seq<u8>,
    pub kontexte: Seq<(Option<Seq<char>>, Seq<char>)>,
}

/// Wie das Sammeln der `<toml>`-Tags ein Ereignis (oder einen Lesefehler) verarbeitet.
pub open spec fn toml_schritt(
    dir: Seq<char>,
    sprache: Option<Seq<char>>,
    z: TomlZustand,
    l: Option<XmlEreignisV>,
) -> Result<TomlZustand, FehlerArt> {
    match l {
        None => Err(FehlerArt::Xml),
        Some(e) => if ist_start(e, "toml".spec_bytes()) {
            match attribute_entschluesselt(tag_attribute(e)) {
                Err(()) => Err(FehlerArt::Attribut),
                Ok(attrs) => match wert_zu(attrs, "src".spec_bytes()) {
                    None => Err(FehlerArt::KeinSrc),
                    Some(src) => match attributwert(e, "multilingual".spec_bytes()) {
                        Err(()) => Err(FehlerArt::Attribut),
                        Ok(m) => {
                            let basis = verbunden(dir, src);
                            let pfad = if m is Some { mit_sprache(basis, sprache) } else { basis };
                            Ok(TomlZustand {
                                ausgabe: z.ausgabe,
                                kontexte: z.kontexte.push((wert_zu(attrs, "name".spec_bytes()), pfad)),
                            })
                        },
                    },
                },
            }
        } else if ist_ende(e, "toml".spec_bytes()) {
            Ok(z)
        } else {
            Ok(TomlZustand { ausgabe: z.ausgabe + ereignis_bytes(e), kontexte: z.kontexte })
        },
    }
}

/// Das Sammeln über alle Lesungen, Ereignis für Ereignis; der erste Fehler bricht ab.
pub open spec fn toml_lauf(dir: Seq<char>, sprache: Option<Seq<char>>, s: Seq<Option<XmlEreignisV>>) -> Result<TomlZustand, FehlerArt>
    decreases s.len(),
{
    if s.len() == 0 {
        Ok(TomlZustand { ausgabe: Seq::empty(), kontexte: Seq::empty() })
    } else {
        match toml_lauf(dir, sprache, s.drop_last()) {
            Ok(z) => toml_schritt(dir, sprache, z, s.last()),
            Err(f) => Err(f),
        }
    }
}

/// Die Konfiguration eines `<toml>`-Tags: sein Name und sein `src`, mit `dir`
/// verbunden und mit `multilingual` um die Sprache erweitert; ein Fehler,
/// wenn ein Attribut sich nicht lesen lässt oder `src` fehlt.
pub open spec fn toml_konfig_von(dir: Seq<char>, sprache: Option<Seq<char>>, e: XmlEreignisV)
    -> Result<(Option<Seq<char>>, Seq<char>), FehlerArt>
{
    match attribute_entschluesselt(tag_attribute(e)) {
        Err(()) => Err(FehlerArt::Attribut),
        Ok(attrs) => match wert_zu(attrs, "src".spec_bytes()) {
            None => Err(FehlerArt::KeinSrc),
            Some(src) => match attributwert(e, "multilingual".spec_bytes()) {
                Err(()) => Err(FehlerArt::Attribut),
                Ok(m) => {
                    let basis = verbunden(dir, src);
                    Ok((wert_zu(attrs, "name".spec_bytes()), if m is Some { mit_sprache(basis, sprache) } else { basis }))
                },
            },
        },
    }
}

/// An dieser Lesung bricht das Sammeln ab: ein Lesefehler oder ein
/// `<toml>`-Tag ohne lesbare Konfiguration.
pub open spec fn toml_bruch(dir: Seq<char>, sprache: Option<Seq<char>>, l: Option<XmlEreignisV>) -> bool {
    match l {
        None => true,
        Some(e) => ist_start(e, "toml".spec_bytes()) && toml_konfig_von(dir, sprache, e) is Err,
    }
}

/// Der Fehler einer Lesung, an der das Sammeln abbricht.
pub open spec fn toml_fehler(dir: Seq<char>, sprache: Option<Seq<char>>, l: Option<XmlEreignisV>) -> FehlerArt {
    match l {
        None => FehlerArt::Xml,
        Some(e) => match toml_konfig_von(dir, sprache, e) {
            Err(f) => f,
            Ok(_) => FehlerArt::Xml,
        },
    }
}

/// `i` ist die erste Stelle, an der das Sammeln abbricht.
pub open spec fn erster_toml_bruch(dir: Seq<char>, sprache: Option<Seq<char>>, s: Seq<Option<XmlEreignisV>>, i: int) -> bool {
    0 <= i < s.len() && toml_bruch(dir, sprache, s[i])
        && forall|k: int| 0 <= k < i ==> !#[trigger] toml_bruch(dir, sprache, s[k])
}

/// Was eine Lesung zur Ausgabe beiträgt: jedes Ereignis außer `<toml>` und
/// `</toml>` mit seinen Bytes.
pub open spec fn toml_stueck(l: Option<XmlEreignisV>) -> Seq<u8> {
    match l {
        Some(e) => if !ist_start(e, "toml".spec_bytes()) && !ist_ende(e, "toml".spec_bytes()) {
            ereignis_bytes(e)
        } else {
            Seq::empty()
        },
        None => Seq::empty(),
    }
}

/// Was eine Lesung zu den Konfigurationen beiträgt: die eines `<toml>`-Tags.
pub open spec fn toml_kontext_stueck(dir: Seq<char>, sprache: Option<Seq<char>>, l: Option<XmlEreignisV>)
    -> Seq<(Option<Seq<char>>, Seq<char>)>
{
    match l {
        Some(e) => if ist_start(e, "toml".spec_bytes()) {
            match toml_konfig_von(dir, sprache, e) {
                Ok(k) => seq![k],
                Err(_) => Seq::empty(),
            }
        } else {
            Seq::empty()
        },
        None => Seq::empty(),
    }
}

/// Das Sammeln, direkt gesagt: bricht es irgendwo ab, der Fehler der ersten
/// solchen Stelle; sonst alle Ereignisse außer `<toml>` und `</toml>` und die
/// Konfigurationen aller `<toml>`-Tags in ihrer Reihenfolge.
pub open spec fn toml_ergebnis(dir: Seq<char>, sprache: Option<Seq<char>>, s: Seq<Option<XmlEreignisV>>)
    -> Result<TomlZustand, FehlerArt>
{
    if exists|i: int| erster_toml_bruch(dir, sprache, s, i) {
        let i = choose|i: int| erster_toml_bruch(dir, sprache, s, i);
        Err(toml_fehler(dir, sprache, s[i]))
    } else {
        Ok(TomlZustand {
            ausgabe: s.map_values(|l: Option<XmlEreignisV>| toml_stueck(l)).flatten(),
            kontexte: s.map_values(|l: Option<XmlEreignisV>| toml_kontext_stueck(dir, sprache, l)).flatten(),
        })
    }
}

proof fn lemma_erster_toml_bruch(dir: Seq<char>, sprache: Option<Seq<char>>, s: Seq<Option<XmlEreignisV>>, i: int)
    requires
        0 <= i < s.len(),
        toml_bruch(dir, sprache, s[i]),
    ensures
        exists|j: int| erster_toml_bruch(dir, sprache, s, j),
    decreases i,
{
    if forall|k: int| 0 <= k < i ==> !#[trigger] toml_bruch(dir, sprache, s[k]) {
        assert(erster_toml_bruch(dir, sprache, s, i));
    } else {
        let k = choose|k: int| 0 <= k < i && #[trigger] toml_bruch(dir, sprache, s[k]);
        lemma_erster_toml_bruch(dir, sprache, s, k);
    }
}

proof fn lemma_erster_toml_bruch_eindeutig(dir: Seq<char>, sprache: Option<Seq<char>>, s: Seq<Option<XmlEreignisV>>, i: int)
    requires
        erster_toml_bruch(dir, sprache, s, i),
    ensures
        toml_ergebnis(dir, sprache, s) == Err::<TomlZustand, FehlerArt>(toml_fehler(dir, sprache, s[i])),
{
    let c = choose|c: int| erster_toml_bruch(dir, sprache, s, c);
    if c < i {
        assert(!toml_bruch(dir, sprache, s[c]));
    }
    if i < c {
        assert(!toml_bruch(dir, sprache, s[i]));
    }
}

/// Der Lauf Ereignis für Ereignis ergibt genau das direkt gesagte Ergebnis.
pub proof fn lemma_toml_direkt(dir: Seq<char>, sprache: Option<Seq<char>>, s: Seq<Option<XmlEreignisV>>)
    ensures
        toml_lauf(dir, sprache, s) == toml_ergebnis(dir, sprache, s),
    decreases s.len(),
{
    let f = |l: Option<XmlEreignisV>| toml_stueck(l);
    let g = |l: Option<XmlEreignisV>| toml_kontext_stueck(dir, sprache, l);
    if s.len() == 0 {
        assert(s.map_values(f) =~= Seq::<Seq<u8>>::empty());
        assert(s.map_values(f).flatten() =~= Seq::<u8>::empty());
        assert(s.map_values(g) =~= Seq::<Seq<(Option<Seq<char>>, Seq<char>)>>::empty());
        assert(s.map_values(g).flatten() =~= Seq::<(Option<Seq<char>>, Seq<char>)>::empty());
    } else {
        let v = s.drop_last();
        let n = s.len() - 1;
        lemma_toml_direkt(dir, sprache, v);
        assert forall|k: int| 0 <= k < n implies v[k] == s[k] by {}
        assert(s.last() == s[n]);
        if exists|i: int| erster_toml_bruch(dir, sprache, v, i) {
            let i = choose|i: int| erster_toml_bruch(dir, sprache, v, i);
            assert(erster_toml_bruch(dir, sprache, s, i));
            lemma_erster_toml_bruch_eindeutig(dir, sprache, v, i);
            lemma_erster_toml_bruch_eindeutig(dir, sprache, s, i);
        } else {
            assert forall|k: int| 0 <= k < n implies !#[trigger] toml_bruch(dir, sprache, s[k]) by {
                if toml_bruch(dir, sprache, s[k]) {
                    assert(toml_bruch(dir, sprache, v[k]));
                    lemma_erster_toml_bruch(dir, sprache, v, k);
                }
            }
            if toml_bruch(dir, sprache, s[n]) {
                assert(erster_toml_bruch(dir, sprache, s, n));
                lemma_erster_toml_bruch_eindeutig(dir, sprache, s, n);
            } else {
                assert(!exists|i: int| erster_toml_bruch(dir, sprache, s, i));
                assert(s.map_values(f) =~= v.map_values(f).push(f(s[n])));
                v.map_values(f).lemma_flatten_push(f(s[n]));
                assert(s.map_values(g) =~= v.map_values(g).push(g(s[n])));
                v.map_values(g).lemma_flatten_push(g(s[n]));
                if let Some(e) = s[n] {
                    if ist_start(e, "toml".spec_bytes()) {
                        if let Ok(k) = toml_konfig_von(dir, sprache, e) {
                            assert(v.map_values(g).flatten() + seq![k] == v.map_values(g).flatten().push(k));
                        }
                    }
                }
            }
        }
    }
}

/// Ist das Sammeln nach `n` Lesungen gescheitert, bleibt es bei diesem Fehler.
pub proof fn lemma_toml_fehler_bleibt(dir: Seq<char>, sprache: Option<Seq<char>>, s: Seq<Option<XmlEreignisV>>, n: int)
    requires
        0 <= n <= s.len(),
        toml_lauf(dir, sprache, s.take(n)) is Err,
    ensures
        toml_lauf(dir, sprache, s) == toml_lauf(dir, sprache, s.take(n)),
    decreases s.len() - n,
{
    if n < s.len() {
        assert(s.take(n + 1).drop_last() =~= s.take(n));
        lemma_toml_fehler_bleibt(dir, sprache, s, n + 1);
    } else {
        assert(s.take(n) =~= s);
    }
}

/// Was das Sammeln ergibt: das Dokument ohne `<toml>`-Tags als Text und die
/// Konfigurationen (Name, Pfad) in ihrer Reihenfolge.
#[derive(Debug)]
pub struct TomlSammlung {
    pub text: String,
    pub kontexte: Vec<(Option<String>, String)>,
}

pub open spec fn kontexte_v(k: Seq<(Option<String>, String)>) -> Seq<(Option<Seq<char>>, Seq<char>)> {
    k.map_values(|p: (Option<String>, String)| (match p.0 { Some(n) => Some(n@), None => None }, p.1@))
}

pub open spec fn sprache_v(language: Option<&String>) -> Option<Seq<char>> {
    match language {
        Some(l) => Some(l@),
        None => None,
    }
}

/// Sammelt die `<toml src=".." name="..">`-Tags eines Dokuments und entfernt
/// sie (samt `</toml>`); `src` wird mit `base_dir` verbunden und mit
/// `multilingual` um die Sprache erweitert. Alle anderen Ereignisse bleiben.
/// Ein `<toml>` ohne `src` ist ein Fehler.
pub fn toml_tags_sammeln(input_xhtml: &str, base_dir: &str, language: Option<&String>)
    -> (res: Result<TomlSammlung, VehaFehler>)
    requires
        language matches Some(l) ==> !l@.contains('/'),
    ensures
        match res {
            Ok(r) => toml_ergebnis(base_dir@, sprache_v(language), xml_lesungen(input_xhtml@, false)) matches Ok(z)
                && encode_utf8(r.text@) == z.ausgabe && kontexte_v(r.kontexte@) == z.kontexte,
            Err(f) => match toml_ergebnis(base_dir@, sprache_v(language), xml_lesungen(input_xhtml@, false)) {
                Err(g) => f.art() == g && (g == FehlerArt::KeinSrc ==> f.tag_text() == Some("toml"@))
                    && (f matches VehaFehler::Xml(m) ==> m@ == erste_meldung(xml_lesefolge(input_xhtml@, false))),
                Ok(z) => !valid_utf8(z.ausgabe) && f.art() == FehlerArt::KeinUtf8,
            },
        },
{
    proof { lemma_toml_direkt(base_dir@, sprache_v(language), xml_lesungen(input_xhtml@, false)); }
    let ls = lesungen(input_xhtml, false);
    let ghost s = lesungen_v(ls@);
    let ghost sp = sprache_v(language);
    let mut ausgabe: Vec<u8> = Vec::new();
    let mut kontexte: Vec<(Option<String>, String)> = Vec::new();
    let mut i: usize = 0;
    assert(s.take(0) =~= Seq::<Option<XmlEreignisV>>::empty());
    assert(kontexte_v(kontexte@) =~= Seq::<(Option<Seq<char>>, Seq<char>)>::empty());
    while i < ls.len()
        invariant
            s == lesungen_v(ls@),
            s == xml_lesungen(input_xhtml@, false),
            lesungen_voll(ls@) == xml_lesefolge(input_xhtml@, false),
            forall|k: int| 0 <= k < i ==> ls@[k] is Ok,
            lesungen_wohlgeformt(s),
            sp == sprache_v(language),
            toml_lauf(base_dir@, sp, s) == toml_ergebnis(base_dir@, sp, s),
            language matches Some(l) ==> !l@.contains('/'),
            i <= ls@.len(),
            toml_lauf(base_dir@, sp, s.take(i as int)) == Ok::<TomlZustand, FehlerArt>(
                TomlZustand { ausgabe: ausgabe@, kontexte: kontexte_v(kontexte@) }),
        decreases ls@.len() - i,
    {
        assert(s.take(i + 1).drop_last() =~= s.take(i as int));
        assert(s.take(i + 1).last() == lesung_v(ls@[i as int]));
        match &ls[i] {
            Err(f) => {
                proof {
                    lemma_toml_fehler_bleibt(base_dir@, sp, s, i as int + 1);
                    lemma_erste_meldung(ls@, i as int);
                }
                return Err(VehaFehler::Xml(f.meldung.clone()));
            },
            Ok(e) => {
                if ist_start_von(e, "toml") {
                    let attrs = match attribute_lesen_entschluesselt(e) {
                        Ok(a) => a,
                        Err(f) => {
                            proof { lemma_toml_fehler_bleibt(base_dir@, sp, s, i as int + 1); }
                            return Err(f);
                        },
                    };
                    let src = match wert_zu_von(&attrs, "src") {
                        Some(q) => q,
                        None => {
                            proof { lemma_toml_fehler_bleibt(base_dir@, sp, s, i as int + 1); }
                            let t = "toml";
                            proof {
                                reveal_strlit("toml");
                            }
                            return Err(VehaFehler::KeinSrc(String::from_str(t)));
                        },
                    };
                    let basis = verbinden(base_dir, src.as_str());
                    let pfad = match attribut_vorhanden(e, "multilingual") {
                        Err(_) => {
                            proof { lemma_toml_fehler_bleibt(base_dir@, sp, s, i as int + 1); }
                            return Err(VehaFehler::Attribut);
                        },
                        Ok(true) => endung_mit_sprache_erweitern(basis.as_str(), language),
                        Ok(false) => basis,
                    };
                    let name = wert_zu_von(&attrs, "name");
                    let ghost alt = kontexte@;
                    kontexte.push((name, pfad));
                    assert(kontexte_v(kontexte@) =~= kontexte_v(alt).push(
                        (wert_zu(attribute_v(attrs@), "name".spec_bytes()), pfad@)));
                } else if ist_ende_von(e, "toml") {
                } else {
                    proof { lemma_lesung_gueltig(s, ls@, i as int); }
                    ereignis_schreiben(&mut ausgabe, e);
                }
            },
        }
        i = i + 1;
    }
    assert(s.take(i as int) =~= s);
    match str_aus_utf8(ausgabe.as_slice()) {
        None => Err(VehaFehler::KeinUtf8),
        Some(t) => {
            proof { decode_utf8_encode_utf8(ausgabe@); }
            Ok(TomlSammlung { text: String::from_str(t), kontexte })
        },
    }
}

/// Was der Aufbau der Tera-Instanz und ihres Kontexts ergibt: die Vorlagen
/// und der Inhalt des Kontexts (Schlüssel → TOML-Text), oder der erste
/// Fehler. Für jede Konfiguration wird ihr Text unter ihrem Namen (ohne Namen
/// unter `config`) eingetragen und das Dokument als `template.xhtml`
/// aufgenommen.
pub open spec fn aufbau_lauf(
    konfig: Seq<(Option<Seq<char>>, Seq<char>)>,
    eingabe: Seq<char>,
) -> Result<(Map<Seq<char>, Seq<char>>, Map<Seq<char>, Seq<char>>), FehlerArt>
    decreases konfig.len(),
{
    if konfig.len() == 0 {
        Ok((Map::empty(), Map::empty()))
    } else {
        match aufbau_lauf(konfig.drop_last(), eingabe) {
            Err(f) => Err(f),
            Ok((vorlagen, inhalt)) => {
                let k = konfig.last();
                if !toml_gueltig(k.1) {
                    Err(FehlerArt::Toml)
                } else if !tera_aufnahme_ok(vorlagen, "template.xhtml"@, eingabe) {
                    Err(FehlerArt::Tera)
                } else {
                    Ok((vorlagen.insert("template.xhtml"@, eingabe), inhalt.insert(kontext_name(k.0), k.1)))
                }
            },
        }
    }
}

pub proof fn lemma_aufbau_fehler_bleibt(konfig: Seq<(Option<Seq<char>>, Seq<char>)>, eingabe: Seq<char>, n: int)
    requires
        0 <= n <= konfig.len(),
        aufbau_lauf(konfig.take(n), eingabe) is Err,
    ensures
        aufbau_lauf(konfig, eingabe) == aufbau_lauf(konfig.take(n), eingabe),
    decreases konfig.len() - n,
{
    if n < konfig.len() {
        assert(konfig.take(n + 1).drop_last() =~= konfig.take(n));
        lemma_aufbau_fehler_bleibt(konfig, eingabe, n + 1);
    } else {
        assert(konfig.take(n) =~= konfig);
    }
}

/// Baut die Tera-Instanz und den Kontext (siehe [`aufbau_lauf`]). Gibt es
/// mindestens eine Konfiguration, hält die Instanz danach genau die Vorlage
/// `template.xhtml` mit dem Dokument.
pub fn tera_aufbauen(konfigurationen: &Vec<(Option<String>, String)>, eingabe: &str)
    -> (res: Result<(Vorlagen, Kontext), VehaFehler>)
    ensures
        match res {
            Ok((t, c)) => {
                &&& aufbau_lauf(kontexte_v(konfigurationen@), eingabe@)
                    == Ok::<(Map<Seq<char>, Seq<char>>, Map<Seq<char>, Seq<char>>), FehlerArt>(
                        (t.quellen(), c.inhalt()))
                &&& t.heil()
                &&& konfigurationen@.len() > 0 ==> t.quellen() == map!["template.xhtml"@ => eingabe@]
            },
            Err(f) => aufbau_lauf(kontexte_v(konfigurationen@), eingabe@)
                == Err::<(Map<Seq<char>, Seq<char>>, Map<Seq<char>, Seq<char>>), FehlerArt>(f.art()),
        },
{
    let ghost kv = kontexte_v(konfigurationen@);
    let mut t = vorlagen_neu();
    let mut c = kontext_neu();
    assert(t.quellen() =~= Map::<Seq<char>, Seq<char>>::empty());
    assert(c.inhalt() =~= Map::<Seq<char>, Seq<char>>::empty());
    let name = "template.xhtml";
    let mut i: usize = 0;
    assert(kv.take(0) =~= Seq::<(Option<Seq<char>>, Seq<char>)>::empty());
    while i < konfigurationen.len()
        invariant
            kv == kontexte_v(konfigurationen@),
            name@ == "template.xhtml"@,
            i <= konfigurationen@.len(),
            aufbau_lauf(kv.take(i as int), eingabe@)
                == Ok::<(Map<Seq<char>, Seq<char>>, Map<Seq<char>, Seq<char>>), FehlerArt>(
                    (t.quellen(), c.inhalt())),
            t.heil(),
            i > 0 ==> t.quellen() == map!["template.xhtml"@ => eingabe@],
            i == 0 ==> t.quellen() == Map::<Seq<char>, Seq<char>>::empty(),
        decreases konfigurationen@.len() - i,
    {
        assert(kv.take(i + 1).drop_last() =~= kv.take(i as int));
        assert(kv.take(i + 1).last() == kv[i as int]);
        let k = &konfigurationen[i];
        let schluessel = crate::teramotor::kontext_schluessel_von(&k.0);
        match toml_einfuegen(&mut c, schluessel.as_str(), k.1.as_str()) {
            Ok(()) => {},
            Err(m) => {
                proof { lemma_aufbau_fehler_bleibt(kv, eingabe@, i as int + 1); }
                return Err(VehaFehler::Toml(m));
            },
        }
        match vorlage_aufnehmen(&mut t, name, eingabe) {
            Ok(()) => {},
            Err(m) => {
                proof { lemma_aufbau_fehler_bleibt(kv, eingabe@, i as int + 1); }
                return Err(VehaFehler::Tera(m));
            },
        }
        assert(t.quellen() =~= map!["template.xhtml"@ => eingabe@]);
        i = i + 1;
    }
    assert(kv.take(i as int) =~= kv);
    Ok((t, c))
}

/// Stellt das Dokument `input_string` als Tera-Vorlage mit den
/// TOML-Konfigurationen dar: genau das, was [`tera_aufbauen`] aufbaut, unter
/// dem Vorlagennamen `template.xhtml`. Was die Darstellung liefert, hängt von
/// Tera ab; der Vertrag sagt, wann sie gar nicht erst versucht wird.
pub fn process_via_tera(kontexte: Vec<(Option<String>, String)>, input_string: String)
    -> (res: Result<String, VehaFehler>)
    ensures
        match aufbau_lauf(kontexte_v(kontexte@), input_string@) {
            Err(f) => res matches Err(g) && g.art() == f,
            Ok((q, i)) => {
                &&& res matches Err(g) ==> g.art() == FehlerArt::Tera
                &&& res matches Ok(r) ==> tera_darstellung(q, "template.xhtml"@, i, r@)
                &&& tera_gelingt(q, "template.xhtml"@, i) ==> res is Ok
            },
        },
{
    let (t, c) = tera_aufbauen(&kontexte, input_string.as_str())?;
    match rendern(&t, "template.xhtml", &c) {
        Ok(s) => Ok(s),
        Err(m) => Err(VehaFehler::Tera(m)),
    }
}

/// Der zweite Schritt des TOML-Motors: `text` ist das Dokument ohne
/// `<toml>`-Tags (siehe [`toml_tags_sammeln`]), `konfigurationen` sind die
/// Namen mit den Texten der genannten TOML-Dateien. Ohne Konfiguration bleibt
/// das Dokument, wie es ist; sonst wird es dargestellt wie in
/// [`process_via_tera`].
pub fn motor(text: String, konfigurationen: Vec<(Option<String>, String)>) -> (res: Result<String, VehaFehler>)
    ensures
        konfigurationen@.len() == 0 ==> (res matches Ok(r) && r@ == text@),
        konfigurationen@.len() > 0 ==> match aufbau_lauf(kontexte_v(konfigurationen@), text@) {
            Err(f) => res matches Err(g) && g.art() == f,
            Ok((q, i)) => {
                &&& res matches Err(g) ==> g.art() == FehlerArt::Tera
                &&& res matches Ok(r) ==> tera_darstellung(q, "template.xhtml"@, i, r@)
                &&& tera_gelingt(q, "template.xhtml"@, i) ==> res is Ok
            },
        },
{
    if konfigurationen.len() == 0 {
        Ok(text)
    } else {
        process_via_tera(konfigurationen, text)
    }
}

} // verus!
