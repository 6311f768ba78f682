//! Der Markdown-Motor: `<md src=".." tag="..">` durch das HTML der
//! Markdown-Datei ersetzen, eingefasst in einen Tag `tag`.

use vstd::prelude::*;
use crate::leser::{lemma_lesung_gueltig, lesungen_wohlgeformt};
use vstd::utf8::*;
use vstd::string::{StringExecFns, StringSliceAdditionalSpecFns};
use crate::ereignis::{bytes_anhaengen, ereignis_bytes, ereignis_schreiben, Art, XmlEreignis, XmlEreignisV};
use crate::fehler::{FehlerArt, VehaFehler};
use crate::leser::{erste_meldung, lemma_erste_meldung, lesung_v, lesungen, lesungen_v, lesungen_voll, str_aus_utf8, xml_lesefolge, xml_lesungen};
use crate::pfad::{endung_mit_sprache_erweitern, mit_sprache, verbinden, verbunden};
use crate::tabular::{attributtext, attributtext_von};
use crate::tagbau::{attribute_filtern, start_inhalt, start_mit_attributen};
use crate::utils::{attribut_vorhanden, attributwert, ist_ende, ist_ende_von, ist_start, ist_start_von, tag_attribute};

verus! {

/// Das HTML, das `markdown::to_html_with_options(text, &Options::gfm())`
/// für einen Markdown-Text liefert; `None`, wenn es einen Fehler meldet.
pub uninterp spec fn md_html(text: Seq<char>) -> Option<Seq<char>>;

/// `markdown::to_html_with_options` mit GFM-Optionen. Vertrag: das Ergebnis
/// ist `md_html(text)`, und ohne MDX gelingt die Umwandlung immer (so sagt
/// es die Dokumentation von `markdown`).
#[verifier::external_body]
fn md_zu_html(text: &str) -> (res: Option<String>)
    ensures
        res is Some,
        match res {
            Some(h) => md_html(text@) == Some(h@),
            None => md_html(text@) is None,
        },
{
    markdown::to_html_with_options(text, &markdown::Options::gfm()).ok()
}

/// Alle Ereignisse hintereinander geschrieben, oder der erste Lesefehler.
pub open spec fn alle_bytes(s: Seq<Option<XmlEreignisV>>) -> Result<Seq<u8>, FehlerArt>
    decreases s.len(),
{
    if s.len() == 0 {
        Ok(Seq::empty())
    } else {
        match alle_bytes(s.drop_last()) {
            Err(f) => Err(f),
            Ok(a) => match s.last() {
                None => Err(FehlerArt::Xml),
                Some(e) => Ok(a + ereignis_bytes(e)),
            },
        }
    }
}

/// Ist das Schreiben nach `n` Lesungen gescheitert, bleibt es bei diesem Fehler.
pub proof fn lemma_alle_fehler_bleibt(s: Seq<Option<XmlEreignisV>>, n: int)
    requires
        0 <= n <= s.len(),
        alle_bytes(s.take(n)) is Err,
    ensures
        alle_bytes(s) == alle_bytes(s.take(n)),
    decreases s.len() - n,
{
    if n < s.len() {
        assert(s.take(n + 1).drop_last() =~= s.take(n));
        lemma_alle_fehler_bleibt(s, n + 1);
    } else {
        assert(s.take(n) =~= s);
    }
}

/// Schreibt alle gelesenen Ereignisse eines Texts, bis zum ersten Lesefehler.
pub fn alle_schreiben(text: &str, aus: &mut Vec<u8>) -> (res: Result<(), VehaFehler>)
    ensures
        match res {
            Ok(()) => alle_bytes(xml_lesungen(text@, false)) matches Ok(b) && final(aus)@ == old(aus)@ + b,
            Err(f) => alle_bytes(xml_lesungen(text@, false)) == Err::<Seq<u8>, FehlerArt>(f.art())
                && (f matches VehaFehler::Xml(m) ==> m@ == erste_meldung(xml_lesefolge(text@, false))),
        },
{
    let ls = lesungen(text, false);
    let ghost s = lesungen_v(ls@);
    let ghost anfang = old(aus)@;
    let mut i: usize = 0;
    assert(s.take(0) =~= Seq::<Option<XmlEreignisV>>::empty());
    assert(aus@.subrange(anfang.len() as int, aus@.len() as int) =~= Seq::<u8>::empty());
    while i < ls.len()
        invariant
            s == lesungen_v(ls@),
            s == xml_lesungen(text@, false),
            lesungen_voll(ls@) == xml_lesefolge(text@, false),
            forall|k: int| 0 <= k < i ==> ls@[k] is Ok,
            lesungen_wohlgeformt(s),
            anfang == old(aus)@,
            i <= ls@.len(),
            anfang.len() <= aus@.len(),
            aus@.subrange(0, anfang.len() as int) == anfang,
            alle_bytes(s.take(i as int)) == Ok::<Seq<u8>, FehlerArt>(aus@.subrange(anfang.len() as int, aus@.len() as int)),
        decreases ls@.len() - i,
    {
        assert(s.take(i + 1).drop_last() =~= s.take(i as int));
        assert(s.take(i + 1).last() == lesung_v(ls@[i as int]));
        match &ls[i] {
            Err(f) => {
                proof {
                    lemma_alle_fehler_bleibt(s, i as int + 1);
                    lemma_erste_meldung(ls@, i as int);
                }
                return Err(VehaFehler::Xml(f.meldung.clone()));
            },
            Ok(e) => {
                let ghost vor = aus@;
                proof { lemma_lesung_gueltig(s, ls@, i as int); }
                ereignis_schreiben(aus, e);
                assert(aus@.subrange(0, anfang.len() as int) =~= vor.subrange(0, anfang.len() as int));
                assert(aus@.subrange(anfang.len() as int, aus@.len() as int)
                    =~= vor.subrange(anfang.len() as int, vor.len() as int) + ereignis_bytes(e@));
            },
        }
        i = i + 1;
    }
    assert(s.take(i as int) =~= s);
    assert(aus@ =~= anfang + aus@.subrange(anfang.len() as int, aus@.len() as int));
    Ok(())
}

/// Zustand beim Einsetzen des Markdown-HTML.
pub struct MdZustand {
    pub ausgabe: Seq<u8>,
    pub in_md: bool,
    pub verbraucht: nat,
}

pub open spec fn html_oder_leer(text: Seq<char>) -> Seq<char> {
    match md_html(text) {
        Some(h) => h,
        None => Seq::empty(),
    }
}

/// Wie das Einsetzen des Markdown-HTML ein Ereignis (oder einen Lesefehler) verarbeitet.
pub open spec fn md_schritt(inhalte: Seq<Seq<char>>, z: MdZustand, l: Option<XmlEreignisV>) -> Result<MdZustand, FehlerArt> {
    match l {
        None => Err(FehlerArt::Xml),
        Some(e) => if ist_start(e, "md".spec_bytes()) {
            match attributtext(e, "src".spec_bytes()) {
                Err(()) => Err(FehlerArt::Attribut),
                Ok(None) => Ok(MdZustand { in_md: true, ..z }),
                Ok(Some(_)) => match attributwert(e, "multilingual".spec_bytes()) {
                    Err(()) => Err(FehlerArt::Attribut),
                    Ok(_) => if z.verbraucht >= inhalte.len() {
                        Err(FehlerArt::FehlendeAntwort)
                    } else {
                        let html = html_oder_leer(inhalte[z.verbraucht as int]);
                        let z1 = MdZustand { in_md: true, verbraucht: z.verbraucht + 1, ..z };
                        match attributtext(e, "tag".spec_bytes()) {
                            Err(()) => Err(FehlerArt::Attribut),
                            Ok(None) => Ok(z1),
                            Ok(Some(tag)) => match attribute_filtern(
                                tag_attribute(e),
                                seq!["src".spec_bytes(), "tag".spec_bytes()],
                                false,
                            ) {
                                Err(()) => Err(FehlerArt::Attribut),
                                Ok(attrs) => match alle_bytes(xml_lesungen(html, false)) {
                                    Err(f) => Err(f),
                                    Ok(b) => Ok(MdZustand {
                                        ausgabe: z.ausgabe
                                            + ereignis_bytes(XmlEreignisV { art: Art::Start, inhalt: start_inhalt(tag, attrs) })
                                            + b
                                            + ereignis_bytes(XmlEreignisV { art: Art::Ende, inhalt: tag }),
                                        ..z1
                                    }),
                                },
                            },
                        }
                    },
                },
            }
        } else if ist_ende(e, "md".spec_bytes()) && z.in_md {
            Ok(MdZustand { in_md: false, ..z })
        } else {
            Ok(MdZustand { ausgabe: z.ausgabe + ereignis_bytes(e), ..z })
        },
    }
}

/// Das Einsetzen über alle Lesungen, Ereignis für Ereignis; der erste Fehler bricht ab.
pub open spec fn md_lauf(inhalte: Seq<Seq<char>>, s: Seq<Option<XmlEreignisV>>) -> Result<MdZustand, FehlerArt>
    decreases s.len(),
{
    if s.len() == 0 {
        Ok(MdZustand { ausgabe: Seq::empty(), in_md: false, verbraucht: 0 })
    } else {
        match md_lauf(inhalte, s.drop_last()) {
            Ok(z) => md_schritt(inhalte, z, s.last()),
            Err(f) => Err(f),
        }
    }
}

/// Ist das Einsetzen nach `n` Lesungen gescheitert, bleibt es bei diesem Fehler.
pub proof fn lemma_md_fehler_bleibt(inhalte: Seq<Seq<char>>, s: Seq<Option<XmlEreignisV>>, n: int)
    requires
        0 <= n <= s.len(),
        md_lauf(inhalte, s.take(n)) is Err,
    ensures
        md_lauf(inhalte, s) == md_lauf(inhalte, s.take(n)),
    decreases s.len() - n,
{
    if n < s.len() {
        assert(s.take(n + 1).drop_last() =~= s.take(n));
        lemma_md_fehler_bleibt(inhalte, s, n + 1);
    } else {
        assert(s.take(n) =~= s);
    }
}

/// Die Markdown-Dateien, die [`werte_ersetzen`] liest, in ihrer Reihenfolge:
/// für jedes `<md src="..">` der mit `vorlagen_dir` verbundene Pfad, mit
/// `multilingual` um die Sprache erweitert; bis zum ersten Lese- oder
/// Attributfehler.
pub open spec fn md_dateien_lauf(
    dir: Seq<char>,
    sprache: Option<Seq<char>>,
    s: Seq<Option<XmlEreignisV>>,
    n: int,
) -> (Seq<Seq<char>>, bool)
    decreases n,
{
    if n <= 0 {
        (Seq::empty(), false)
    } else {
        let (pfade, abbruch) = md_dateien_lauf(dir, sprache, s, n - 1);
        if abbruch {
            (pfade, true)
        } else {
            match s[n - 1] {
                None => (pfade, true),
                Some(e) => if ist_start(e, "md".spec_bytes()) {
                    match attributtext(e, "src".spec_bytes()) {
                        Err(()) => (pfade, true),
                        Ok(None) => (pfade, false),
                        Ok(Some(src)) => match attributwert(e, "multilingual".spec_bytes()) {
                            Err(()) => (pfade, true),
                            Ok(None) => (pfade.push(verbunden(dir, decode_utf8(src))), false),
                            Ok(Some(_)) => (pfade.push(mit_sprache(verbunden(dir, decode_utf8(src)), sprache)), false),
                        },
                    }
                } else {
                    (pfade, false)
                },
            }
        }
    }
}

/// Ist das Sammeln nach `n` Lesungen abgebrochen, bleibt das Ergebnis.
pub proof fn lemma_dateien_abbruch_bleibt(
    dir: Seq<char>,
    sprache: Option<Seq<char>>,
    s: Seq<Option<XmlEreignisV>>,
    n: int,
)
    requires
        0 <= n <= s.len(),
        md_dateien_lauf(dir, sprache, s, n).1,
    ensures
        md_dateien_lauf(dir, sprache, s, s.len() as int).0 == md_dateien_lauf(dir, sprache, s, n).0,
    decreases s.len() - n,
{
    if n < s.len() {
        lemma_dateien_abbruch_bleibt(dir, sprache, s, n + 1);
    }
}

pub open spec fn sprache_v(language: Option<&String>) -> Option<Seq<char>> {
    match language {
        Some(l) => Some(l@),
        None => None,
    }
}

/// Die Pfade der Markdown-Dateien, die [`werte_ersetzen`] der Reihe nach
/// braucht.
pub fn md_dateien(eingabe: &str, vorlagen_dir: &str, language: Option<&String>) -> (res: Vec<String>)
    requires
        language matches Some(l) ==> !l@.contains('/'),
    ensures
        res@.map_values(|p: String| p@) == md_dateien_lauf(vorlagen_dir@, sprache_v(language),
            xml_lesungen(eingabe@, false), xml_lesungen(eingabe@, false).len() as int).0,
{
    let ls = lesungen(eingabe, false);
    let ghost s = lesungen_v(ls@);
    let ghost sp = sprache_v(language);
    let mut res: Vec<String> = Vec::new();
    let mut i: usize = 0;
    while i < ls.len()
        invariant
            s == lesungen_v(ls@),
            s == xml_lesungen(eingabe@, false),
            lesungen_wohlgeformt(s),
            sp == sprache_v(language),
            language matches Some(l) ==> !l@.contains('/'),
            i <= ls@.len(),
            md_dateien_lauf(vorlagen_dir@, sp, s, i as int) == (res@.map_values(|p: String| p@), false),
        decreases ls@.len() - i,
    {
        assert(s[i as int] == lesung_v(ls@[i as int]));
        match &ls[i] {
            Err(_) => {
                proof { lemma_dateien_abbruch_bleibt(vorlagen_dir@, sp, s, i as int + 1); }
                return res;
            },
            Ok(e) => {
                if ist_start_von(e, "md") {
                    match attributtext_von(e, "src") {
                        Err(_) => {
                            proof { lemma_dateien_abbruch_bleibt(vorlagen_dir@, sp, s, i as int + 1); }
                            return res;
                        },
                        Ok(None) => {},
                        Ok(Some(src)) => {
                            let src_text = str_aus_utf8(src.as_slice()).unwrap();
                            let pfad = verbinden(vorlagen_dir, src_text);
                            let ghost alt = res@;
                            match attribut_vorhanden(e, "multilingual") {
                                Err(_) => {
                                    proof { lemma_dateien_abbruch_bleibt(vorlagen_dir@, sp, s, i as int + 1); }
                                    return res;
                                },
                                Ok(false) => {
                                    res.push(pfad);
                                },
                                Ok(true) => {
                                    res.push(endung_mit_sprache_erweitern(pfad.as_str(), language));
                                },
                            }
                            assert(res@.map_values(|p: String| p@) =~= alt.map_values(|p: String| p@).push(res@.last()@));
                        },
                    }
                }
            },
        }
        i = i + 1;
    }
    res
}

/// Ersetzt jedes `<md src=".." tag="..">` durch einen Tag `tag` mit den
/// übrigen Attributen, darin das HTML des Markdown-Texts (leer, wenn er sich
/// nicht umwandeln lässt). Der `k`-te solche Tag mit `src` bekommt
/// `inhalte[k]`, den Inhalt der `k`-ten Datei aus [`md_dateien`]. Das
/// `</md>` eines offenen `<md>` entfällt, alles andere bleibt.
pub fn werte_ersetzen(eingabe: String, inhalte: Vec<String>) -> (res: Result<Vec<u8>, VehaFehler>)
    ensures
        match res {
            Ok(a) => md_lauf(inhalte@.map_values(|t: String| t@), xml_lesungen(eingabe@, false)) matches Ok(z)
                && a@ == z.ausgabe,
            Err(f) => md_lauf(inhalte@.map_values(|t: String| t@), xml_lesungen(eingabe@, false))
                == Err::<MdZustand, FehlerArt>(f.art())
                && (f matches VehaFehler::Xml(m) ==> m@ == erste_meldung(xml_lesefolge(eingabe@, false))
                    || exists|k: int| 0 <= k < inhalte.len()
                        && m@ == erste_meldung(xml_lesefolge(html_oder_leer(#[trigger] inhalte@[k]@), false))),
        },
{
    let ls = lesungen(eingabe.as_str(), false);
    let ghost s = lesungen_v(ls@);
    let ghost iv = inhalte@.map_values(|t: String| t@);
    let mut ausgabe: Vec<u8> = Vec::new();
    let mut in_md = false;
    let mut verbraucht: usize = 0;
    let mut i: usize = 0;
    assert(s.take(0) =~= Seq::<Option<XmlEreignisV>>::empty());
    while i < ls.len()
        invariant
            s == lesungen_v(ls@),
            s == xml_lesungen(eingabe@, false),
            lesungen_voll(ls@) == xml_lesefolge(eingabe@, false),
            forall|k: int| 0 <= k < i ==> ls@[k] is Ok,
            lesungen_wohlgeformt(s),
            iv == inhalte@.map_values(|t: String| t@),
            i <= ls@.len(),
            md_lauf(iv, s.take(i as int)) == Ok::<MdZustand, FehlerArt>(
                MdZustand { ausgabe: ausgabe@, in_md, verbraucht: verbraucht as nat }),
        decreases ls@.len() - i,
    {
        assert(s.take(i + 1).drop_last() =~= s.take(i as int));
        assert(s.take(i + 1).last() == lesung_v(ls@[i as int]));
        match &ls[i] {
            Err(f) => {
                proof {
                    lemma_md_fehler_bleibt(iv, s, i as int + 1);
                    lemma_erste_meldung(ls@, i as int);
                }
                return Err(VehaFehler::Xml(f.meldung.clone()));
            },
            Ok(e) => {
                if ist_start_von(e, "md") {
                    match attributtext_von(e, "src") {
                        Err(f) => {
                            proof { lemma_md_fehler_bleibt(iv, s, i as int + 1); }
                            return Err(f);
                        },
                        Ok(None) => {
                            in_md = true;
                        },
                        Ok(Some(_)) => {
                            match attribut_vorhanden(e, "multilingual") {
                                Err(_) => {
                                    proof { lemma_md_fehler_bleibt(iv, s, i as int + 1); }
                                    return Err(VehaFehler::Attribut);
                                },
                                Ok(_) => {},
                            }
                            if verbraucht >= inhalte.len() {
                                proof { lemma_md_fehler_bleibt(iv, s, i as int + 1); }
                                return Err(VehaFehler::FehlendeAntwort);
                            }
                            let html = match md_zu_html(inhalte[verbraucht].as_str()) {
                                Some(h) => h,
                                None => String::new(),
                            };
                            in_md = true;
                            let ghost k_alt = verbraucht as int;
                            verbraucht = verbraucht + 1;
                            match attributtext_von(e, "tag") {
                                Err(f) => {
                                    proof { lemma_md_fehler_bleibt(iv, s, i as int + 1); }
                                    return Err(f);
                                },
                                Ok(None) => {},
                                Ok(Some(tag)) => {
                                    let namen = vec!["src", "tag"];
                                    assert(namen@.map_values(|n: &str| n.spec_bytes())
                                        =~= seq!["src".spec_bytes(), "tag".spec_bytes()]);
                                    let inhalt = match start_mit_attributen(tag.as_slice(), e, &namen, false) {
                                        Ok(x) => x,
                                        Err(_) => {
                                            proof { lemma_md_fehler_bleibt(iv, s, i as int + 1); }
                                            return Err(VehaFehler::Attribut);
                                        },
                                    };
                                    let mut teil: Vec<u8> = Vec::new();
                                    let st = XmlEreignis { art: Art::Start, inhalt };
                                    ereignis_schreiben(&mut teil, &st);
                                    match alle_schreiben(html.as_str(), &mut teil) {
                                        Ok(()) => {},
                                        Err(f) => {
                                            proof {
                                                lemma_md_fehler_bleibt(iv, s, i as int + 1);
                                                assert(html@ == html_oder_leer(inhalte@[k_alt]@));
                                            }
                                            return Err(f);
                                        },
                                    }
                                    let en = XmlEreignis { art: Art::Ende, inhalt: tag };
                                    ereignis_schreiben(&mut teil, &en);
                                    let ghost vor = ausgabe@;
                                    bytes_anhaengen(&mut ausgabe, teil.as_slice());
                                    assert(ausgabe@ =~= vor + ereignis_bytes(st@)
                                        + alle_bytes(xml_lesungen(html@, false)).unwrap() + ereignis_bytes(en@));
                                },
                            }
                        },
                    }
                } else if ist_ende_von(e, "md") && in_md {
                    in_md = false;
                } else {
                    proof { lemma_lesung_gueltig(s, ls@, i as int); }
                    ereignis_schreiben(&mut ausgabe, e);
                }
            },
        }
        i = i + 1;
    }
    assert(s.take(i as int) =~= s);
    Ok(ausgabe)
}

} // verus!
