//! Was über mehrere Aufrufe oder für alle Dokumente gilt.

use vstd::prelude::*;
use vstd::string::StringSliceAdditionalSpecFns;
use crate::beide::aktualisiert;
use crate::binder::{ausgabepfad, ausgabepfad_bis, platzhalter, spaeter_belegt};
use crate::tabular::nachschlagen;
use crate::ereignis::XmlEreignisV;
use crate::fehler::FehlerArt;
use vstd::utf8::*;
use crate::leser::xml_lesungen;
use crate::mdmotor::{alle_bytes, html_oder_leer, md_dateien_lauf, md_lauf, md_schritt, MdZustand};
use crate::qwen::{slot_kopie, vorlage_lauf, vorlagen_lauf, vorlagen_namen_lauf, VorlagenZustand};
use crate::pfad::{dateiname_bereich, endung, ersetzt, lemma_letztes_eindeutig, letzter_teil, mit_sprache};
use crate::tagbau::{attribut_bytes, attribute_bytes, attribute_filtern, maskiert, maskiert_byte};
use crate::press::{ende_an, erster_bruch, im_tag, lemma_teil_weiter, press_beitrag, press_bruch, press_ergebnis, start_an};
use crate::sql::{reihen_lauf, sql_anfragen_lauf, sql_lauf, zeile_bytes, SqlAnfrageV, SqlAntwortV, SqlZustand};
use crate::tabular::{attributtext, spalten_lauf, spalten_schritt, wert_oder_leer, SpaltenZustand};
use crate::teramotor::{lemma_tera_direkt, tera_ergebnis, tera_lauf, TeraZustand};
use crate::tomlmotor::{lemma_toml_direkt, toml_ergebnis, toml_lauf, TomlZustand};
use crate::utils::{attributwert, ist_ende, ist_start, lokaler_name, tag_attribute};

verus! {

/// Die Lesung ist ein Ereignis, aber kein Start- oder End-Tag mit dem
/// lokalen Namen `tag`.
pub open spec fn anderes_ereignis(l: Option<XmlEreignisV>, tag: Seq<u8>) -> bool {
    match l {
        Some(e) => !ist_start(e, tag) && !ist_ende(e, tag),
        None => false,
    }
}

/// Alle Lesungen sind Ereignisse, und keines ist ein Start- oder End-Tag mit
/// dem lokalen Namen `tag`.
pub open spec fn frei_von(s: Seq<Option<XmlEreignisV>>, tag: Seq<u8>) -> bool {
    forall|i: int| 0 <= i < s.len() ==> anderes_ereignis(#[trigger] s[i], tag)
}

proof fn lemma_frei_anfang(s: Seq<Option<XmlEreignisV>>, tag: Seq<u8>)
    requires
        frei_von(s, tag),
        s.len() > 0,
    ensures
        frei_von(s.drop_last(), tag),
        anderes_ereignis(s.last(), tag),
{
    assert forall|i: int| 0 <= i < s.drop_last().len() implies anderes_ereignis(#[trigger] s.drop_last()[i], tag) by {
        assert(s.drop_last()[i] == s[i]);
    }
    assert(s.last() == s[s.len() - 1]);
}

/// Ohne `<column>`-Tags schreibt das Einfüllen jedes Ereignis unverändert
/// wieder, gleich welcher Datensatz.
pub proof fn gesetz_spalten_ohne_column(felder: Seq<(Seq<char>, Seq<char>)>, s: Seq<Option<XmlEreignisV>>)
    requires
        frei_von(s, "column".spec_bytes()),
    ensures
        alle_bytes(s) matches Ok(b)
            && spalten_lauf(felder, s) == Ok::<SpaltenZustand, FehlerArt>(SpaltenZustand { ausgabe: b, offen: Seq::empty() }),
    decreases s.len(),
{
    if s.len() > 0 {
        lemma_frei_anfang(s, "column".spec_bytes());
        gesetz_spalten_ohne_column(felder, s.drop_last());
    }
}

/// Ohne `<md>`-Tags schreibt der Markdown-Motor jedes Ereignis unverändert
/// wieder und verbraucht keine Datei.
pub proof fn gesetz_md_ohne_md(inhalte: Seq<Seq<char>>, s: Seq<Option<XmlEreignisV>>)
    requires
        frei_von(s, "md".spec_bytes()),
    ensures
        alle_bytes(s) matches Ok(b)
            && md_lauf(inhalte, s) == Ok::<MdZustand, FehlerArt>(MdZustand { ausgabe: b, in_md: false, verbraucht: 0 }),
    decreases s.len(),
{
    if s.len() > 0 {
        lemma_frei_anfang(s, "md".spec_bytes());
        gesetz_md_ohne_md(inhalte, s.drop_last());
    }
}

/// Ohne `<sql>`-Tags schreibt der SQL-Motor jedes Ereignis unverändert
/// wieder, auch `<row>`-Tags, und verbraucht keine Antwort.
pub proof fn gesetz_sql_ohne_sql(antworten: Seq<SqlAntwortV>, s: Seq<Option<XmlEreignisV>>)
    requires
        frei_von(s, "sql".spec_bytes()),
    ensures
        alle_bytes(s) matches Ok(b) && sql_lauf(antworten, s) == Ok::<SqlZustand, FehlerArt>(
            SqlZustand { ausgabe: b, offen: false, reihen: Seq::empty(), verbraucht: 0 }),
    decreases s.len(),
{
    if s.len() > 0 {
        lemma_frei_anfang(s, "sql".spec_bytes());
        gesetz_sql_ohne_sql(antworten, s.drop_last());
    }
}

/// Ohne `<toml>`-Tags gibt es keine Konfiguration, und jedes Ereignis wird
/// unverändert wieder geschrieben.
pub proof fn gesetz_toml_ohne_toml(dir: Seq<char>, sprache: Option<Seq<char>>, s: Seq<Option<XmlEreignisV>>)
    requires
        frei_von(s, "toml".spec_bytes()),
    ensures
        alle_bytes(s) matches Ok(b) && toml_ergebnis(dir, sprache, s) == Ok::<TomlZustand, FehlerArt>(
            TomlZustand { ausgabe: b, kontexte: Seq::empty() }),
{
    lemma_toml_ohne_toml(dir, sprache, s);
    lemma_toml_direkt(dir, sprache, s);
}

proof fn lemma_toml_ohne_toml(dir: Seq<char>, sprache: Option<Seq<char>>, s: Seq<Option<XmlEreignisV>>)
    requires
        frei_von(s, "toml".spec_bytes()),
    ensures
        alle_bytes(s) matches Ok(b) && toml_lauf(dir, sprache, s) == Ok::<TomlZustand, FehlerArt>(
            TomlZustand { ausgabe: b, kontexte: Seq::empty() }),
    decreases s.len(),
{
    if s.len() > 0 {
        lemma_frei_anfang(s, "toml".spec_bytes());
        lemma_toml_ohne_toml(dir, sprache, s.drop_last());
    }
}

/// Ohne `<tera>`-Tags gibt es keine Konfiguration, und jedes Ereignis wird
/// unverändert wieder geschrieben.
pub proof fn gesetz_tera_ohne_tera(dir: Seq<char>, s: Seq<Option<XmlEreignisV>>)
    requires
        frei_von(s, "tera".spec_bytes()),
    ensures
        alle_bytes(s) matches Ok(b) && tera_ergebnis(dir, s) == Ok::<TeraZustand, FehlerArt>(
            TeraZustand { ausgabe: b, konfig: None }),
{
    lemma_tera_ohne_tera(dir, s);
    lemma_tera_direkt(dir, s);
}

proof fn lemma_tera_ohne_tera(dir: Seq<char>, s: Seq<Option<XmlEreignisV>>)
    requires
        frei_von(s, "tera".spec_bytes()),
    ensures
        alle_bytes(s) matches Ok(b) && tera_lauf(dir, s) == Ok::<TeraZustand, FehlerArt>(
            TeraZustand { ausgabe: b, konfig: None }),
    decreases s.len(),
{
    if s.len() > 0 {
        lemma_frei_anfang(s, "tera".spec_bytes());
        lemma_tera_ohne_tera(dir, s.drop_last());
    }
}

proof fn lemma_presse_ohne_tag_bis(tag: Seq<u8>, s: Seq<Option<XmlEreignisV>>, n: int)
    requires
        frei_von(s, tag),
        0 <= n <= s.len(),
    ensures
        alle_bytes(s.take(n)) matches Ok(b) && b == Seq::new(n as nat, |i: int| press_beitrag(tag, s, i, false)).flatten(),
        Seq::new(n as nat, |i: int| press_beitrag(tag, s, i, true)).flatten() == Seq::<u8>::empty(),
    decreases n,
{
    if n == 0 {
        assert(s.take(0) =~= Seq::<Option<XmlEreignisV>>::empty());
        assert(Seq::new(0, |i: int| press_beitrag(tag, s, i, false)).flatten() =~= Seq::<u8>::empty());
        assert(Seq::new(0, |i: int| press_beitrag(tag, s, i, true)).flatten() =~= Seq::<u8>::empty());
    } else {
        lemma_presse_ohne_tag_bis(tag, s, n - 1);
        lemma_teil_weiter(tag, s, n - 1, false);
        lemma_teil_weiter(tag, s, n - 1, true);
        assert(s.take(n).drop_last() =~= s.take(n - 1));
        assert(s.take(n).last() == s[n - 1]);
        assert(anderes_ereignis(s[n - 1], tag));
        if im_tag(tag, s, n - 1) {
            let j = choose|j: int| 0 <= j < n - 1 && #[trigger] start_an(tag, s, j)
                && forall|k: int| j < k < n - 1 ==> !#[trigger] ende_an(tag, s, k);
            assert(anderes_ereignis(s[j], tag));
        }
        assert(Seq::<u8>::empty() + Seq::<u8>::empty() =~= Seq::<u8>::empty());
    }
}

/// Kommt der Tag nicht vor, steht das ganze Dokument außerhalb, und innen
/// ist nichts.
pub proof fn gesetz_presse_ohne_tag(tag: Seq<u8>, s: Seq<Option<XmlEreignisV>>)
    requires
        frei_von(s, tag),
    ensures
        alle_bytes(s) matches Ok(b) && press_ergebnis(tag, s) == Ok::<(Seq<u8>, Seq<u8>), FehlerArt>((b, Seq::empty())),
{
    lemma_presse_ohne_tag_bis(tag, s, s.len() as int);
    assert(s.take(s.len() as int) =~= s);
    assert forall|i: int| 0 <= i < s.len() implies !#[trigger] press_bruch(tag, s, i) by {
        assert(anderes_ereignis(s[i], tag));
    }
    assert(!exists|i: int| erster_bruch(tag, s, i));
}

/// Ohne Datensätze wird nichts geschrieben; die Zeilen zweier
/// Datensatzfolgen hintereinander sind die Zeilen der ersten, gefolgt von
/// denen der zweiten, und scheitert eine der beiden, ist es der erste Fehler
/// (der ersten Folge vor dem der zweiten).
pub proof fn gesetz_reihen_verkettung(
    a: Seq<Seq<(Seq<char>, Seq<char>)>>,
    b: Seq<Seq<(Seq<char>, Seq<char>)>>,
    text: Seq<char>,
)
    ensures
        reihen_lauf(Seq::empty(), text) == Ok::<Seq<u8>, FehlerArt>(Seq::empty()),
        reihen_lauf(a + b, text) == match reihen_lauf(a, text) {
            Err(f) => Err(f),
            Ok(x) => match reihen_lauf(b, text) {
                Err(g) => Err(g),
                Ok(y) => Ok::<Seq<u8>, FehlerArt>(x + y),
            },
        },
    decreases b.len(),
{
    if b.len() == 0 {
        assert(a + b =~= a);
        if let Ok(x) = reihen_lauf(a, text) {
            assert(x + Seq::<u8>::empty() =~= x);
        }
    } else {
        assert((a + b).drop_last() =~= a + b.drop_last());
        assert((a + b).last() == b.last());
        gesetz_reihen_verkettung(a, b.drop_last(), text);
        if let Ok(x) = reihen_lauf(a, text) {
            if let Ok(y) = reihen_lauf(b.drop_last(), text) {
                if let Ok(z) = spalten_lauf(b.last(), xml_lesungen(text, false)) {
                    assert(x + y + z.ausgabe =~= x + (y + z.ausgabe));
                }
            }
        }
    }
}

/// `s.replace(muster, neu)` lässt einen Text ohne das erste Zeichen des
/// Musters unverändert.
pub proof fn gesetz_ersetzen_ohne_vorkommen(s: Seq<char>, muster: Seq<char>, neu: Seq<char>)
    requires
        muster.len() > 0,
        !s.contains(muster[0]),
    ensures
        ersetzt(s, muster, neu) == s,
    decreases s.len(),
{
    if s.len() >= muster.len() {
        assert(s.subrange(0, muster.len() as int)[0] == s[0]);
        assert(s.contains(s[0]));
        assert(!s.drop_first().contains(muster[0])) by {
            if s.drop_first().contains(muster[0]) {
                let k = choose|k: int| 0 <= k < s.drop_first().len() && s.drop_first()[k] == muster[0];
                assert(s[k + 1] == muster[0]);
            }
        }
        gesetz_ersetzen_ohne_vorkommen(s.drop_first(), muster, neu);
        assert(seq![s[0]] + s.drop_first() =~= s);
    }
}

/// Ein Ausgabepfad ohne `+` enthält keinen Platzhalter und bleibt, wie er
/// ist, gleich welcher Datensatz.
pub proof fn gesetz_ausgabepfad_ohne_platzhalter(p: Seq<char>, felder: Seq<(Seq<char>, Seq<char>)>)
    requires
        !p.contains('+'),
    ensures
        ausgabepfad(p, felder) == p,
{
    lemma_ausgabepfad_bis_ohne_platzhalter(p, felder, felder.len() as int);
}

proof fn lemma_ausgabepfad_bis_ohne_platzhalter(p: Seq<char>, felder: Seq<(Seq<char>, Seq<char>)>, n: int)
    requires
        !p.contains('+'),
    ensures
        ausgabepfad_bis(p, felder, n) == p,
    decreases n,
{
    if n > 0 {
        lemma_ausgabepfad_bis_ohne_platzhalter(p, felder, n - 1);
        let m = platzhalter(felder[n - 1].0);
        assert(m[0] == '+');
        gesetz_ersetzen_ohne_vorkommen(p, m, felder[n - 1].1);
    }
}

/// Ohne Sprache bleibt jeder Pfad, wie er ist.
pub proof fn gesetz_ohne_sprache(p: Seq<char>)
    ensures
        mit_sprache(p, None) == p,
{
}

/// Ein zweites Ändern ändert nichts mehr.
pub proof fn gesetz_aktualisieren_idempotent(r: (Seq<char>, Seq<char>))
    ensures
        aktualisiert(aktualisiert(r)) == aktualisiert(r),
{
}

/// Eine Antwort passt zu einer Anfrage: Datensätze zu einer Abfrage, ein
/// Text zu einer Zeilenvorlage.
pub open spec fn passt(q: SqlAnfrageV, a: SqlAntwortV) -> bool {
    match q {
        SqlAnfrageV::Abfrage(_, _, _) => a is Reihen,
        SqlAnfrageV::Zeile(_) => a is Text,
    }
}

/// Zu jeder Anfrage gibt es eine passende Antwort an derselben Stelle.
pub open spec fn alle_passen(q: Seq<SqlAnfrageV>, a: Seq<SqlAntwortV>) -> bool {
    q.len() <= a.len() && forall|k: int| 0 <= k < q.len() ==> passt(#[trigger] q[k], a[k])
}

proof fn lemma_alle_nie_fehlende(s: Seq<Option<XmlEreignisV>>)
    ensures
        alle_bytes(s) != Err::<Seq<u8>, FehlerArt>(FehlerArt::FehlendeAntwort),
    decreases s.len(),
{
    if s.len() > 0 {
        lemma_alle_nie_fehlende(s.drop_last());
    }
}

proof fn lemma_spalten_nie_fehlende(felder: Seq<(Seq<char>, Seq<char>)>, s: Seq<Option<XmlEreignisV>>)
    ensures
        spalten_lauf(felder, s) != Err::<SpaltenZustand, FehlerArt>(FehlerArt::FehlendeAntwort),
    decreases s.len(),
{
    if s.len() > 0 {
        lemma_spalten_nie_fehlende(felder, s.drop_last());
    }
}

proof fn lemma_reihen_nie_fehlende(reihen: Seq<Seq<(Seq<char>, Seq<char>)>>, text: Seq<char>)
    ensures
        reihen_lauf(reihen, text) != Err::<Seq<u8>, FehlerArt>(FehlerArt::FehlendeAntwort),
    decreases reihen.len(),
{
    if reihen.len() > 0 {
        lemma_reihen_nie_fehlende(reihen.drop_last(), text);
        lemma_spalten_nie_fehlende(reihen.last(), xml_lesungen(text, false));
    }
}

proof fn lemma_zeile_nie_fehlende(reihen: Seq<Seq<(Seq<char>, Seq<char>)>>, text: Seq<char>, e: XmlEreignisV, tag: Seq<u8>)
    ensures
        zeile_bytes(reihen, text, e, tag) != Err::<Seq<u8>, FehlerArt>(FehlerArt::FehlendeAntwort),
{
    lemma_reihen_nie_fehlende(reihen, text);
    if let Ok(teil) = reihen_lauf(reihen, text) {
        lemma_alle_nie_fehlende(xml_lesungen(decode_utf8(teil), false));
    }
}

proof fn lemma_sql_phasen(dir: Seq<char>, a: Seq<SqlAntwortV>, s: Seq<Option<XmlEreignisV>>, n: int)
    requires
        0 <= n <= s.len(),
    ensures
        match sql_lauf(a, s.take(n)) {
            Ok(z) => {
                let (q, offen, abbruch) = sql_anfragen_lauf(dir, s, n);
                &&& !abbruch
                &&& offen == z.offen
                &&& q.len() == z.verbraucht
                &&& forall|k: int| 0 <= k < q.len() ==> passt(#[trigger] q[k], a[k])
            },
            Err(f) => f == FehlerArt::FehlendeAntwort ==> !alle_passen(sql_anfragen_lauf(dir, s, n).0, a),
        },
    decreases n,
{
    if n > 0 {
        lemma_sql_phasen(dir, a, s, n - 1);
        assert(s.take(n).drop_last() =~= s.take(n - 1));
        assert(s.take(n).last() == s[n - 1]);
        let q0 = sql_anfragen_lauf(dir, s, n - 1).0;
        let q1 = sql_anfragen_lauf(dir, s, n).0;
        assert(q1 == q0 || (q1.len() == q0.len() + 1 && q1.drop_last() == q0));
        assert forall|k: int| 0 <= k < q0.len() implies q1[k] == q0[k] by {
            if q1 != q0 {
                assert(q1.drop_last()[k] == q1[k]);
            }
        }
        match sql_lauf(a, s.take(n - 1)) {
            Err(f) => {
                if alle_passen(q1, a) {
                    assert forall|k: int| 0 <= k < q0.len() implies passt(#[trigger] q0[k], a[k]) by {
                        assert(passt(q1[k], a[k]));
                    }
                }
            },
            Ok(z0) => {
                if let Some(e) = s[n - 1] {
                    if let Ok(Some(tag)) = attributtext(e, "tag".spec_bytes()) {
                        if z0.verbraucht < a.len() {
                            if let SqlAntwortV::Text(t) = a[z0.verbraucht as int] {
                                lemma_zeile_nie_fehlende(z0.reihen, t, e, tag);
                            }
                        }
                    }
                }
                if alle_passen(q1, a) && q1.len() == q0.len() + 1 {
                    assert(passt(q1[q0.len() as int], a[q0.len() as int]));
                }
            },
        }
    }
}

/// Die Antworten, die [`crate::sql::binden`] verbraucht, sind genau die
/// Anfragen von [`crate::sql::sql_anfragen`], in derselben Reihenfolge und
/// von passender Art: gelingt das Binden, hat es so viele Antworten
/// verbraucht, wie es Anfragen gibt, und jede passt zu ihrer Anfrage. Und
/// passt zu jeder Anfrage eine Antwort, fehlt dem Binden nie eine.
pub proof fn gesetz_sql_antworten(dir: Seq<char>, antworten: Seq<SqlAntwortV>, s: Seq<Option<XmlEreignisV>>)
    ensures
        sql_lauf(antworten, s) matches Ok(z) ==> {
            &&& !sql_anfragen_lauf(dir, s, s.len() as int).2
            &&& sql_anfragen_lauf(dir, s, s.len() as int).0.len() == z.verbraucht
            &&& forall|k: int| 0 <= k < z.verbraucht
                ==> passt(#[trigger] sql_anfragen_lauf(dir, s, s.len() as int).0[k], antworten[k])
        },
        alle_passen(sql_anfragen_lauf(dir, s, s.len() as int).0, antworten)
            ==> sql_lauf(antworten, s) != Err::<SqlZustand, FehlerArt>(FehlerArt::FehlendeAntwort),
{
    lemma_sql_phasen(dir, antworten, s, s.len() as int);
    assert(s.take(s.len() as int) =~= s);
}

proof fn lemma_md_phasen(
    dir: Seq<char>,
    sprache: Option<Seq<char>>,
    inhalte: Seq<Seq<char>>,
    s: Seq<Option<XmlEreignisV>>,
    n: int,
)
    requires
        0 <= n <= s.len(),
    ensures
        match md_lauf(inhalte, s.take(n)) {
            Ok(z) => !md_dateien_lauf(dir, sprache, s, n).1 && md_dateien_lauf(dir, sprache, s, n).0.len() == z.verbraucht,
            Err(f) => f == FehlerArt::FehlendeAntwort ==> md_dateien_lauf(dir, sprache, s, n).0.len() > inhalte.len(),
        },
    decreases n,
{
    if n > 0 {
        lemma_md_phasen(dir, sprache, inhalte, s, n - 1);
        assert(s.take(n).drop_last() =~= s.take(n - 1));
        assert(s.take(n).last() == s[n - 1]);
        if let Ok(z0) = md_lauf(inhalte, s.take(n - 1)) {
            if z0.verbraucht < inhalte.len() {
                lemma_alle_nie_fehlende(xml_lesungen(html_oder_leer(inhalte[z0.verbraucht as int]), false));
            }
        }
    }
}

/// Die Markdown-Inhalte, die [`crate::mdmotor::werte_ersetzen`] verbraucht,
/// sind genau die Dateien von [`crate::mdmotor::md_dateien`]: gelingt das
/// Ersetzen, hat es so viele Inhalte verbraucht, wie es Dateien gibt; und
/// gibt es zu jeder Datei einen Inhalt, fehlt nie einer.
pub proof fn gesetz_md_inhalte(dir: Seq<char>, sprache: Option<Seq<char>>, inhalte: Seq<Seq<char>>, s: Seq<Option<XmlEreignisV>>)
    ensures
        md_lauf(inhalte, s) matches Ok(z) ==> !md_dateien_lauf(dir, sprache, s, s.len() as int).1
            && md_dateien_lauf(dir, sprache, s, s.len() as int).0.len() == z.verbraucht,
        md_dateien_lauf(dir, sprache, s, s.len() as int).0.len() <= inhalte.len()
            ==> md_lauf(inhalte, s) != Err::<MdZustand, FehlerArt>(FehlerArt::FehlendeAntwort),
{
    lemma_md_phasen(dir, sprache, inhalte, s, s.len() as int);
    assert(s.take(s.len() as int) =~= s);
}

proof fn lemma_slot_nie_fehlende(m: Seq<Option<XmlEreignisV>>, j: int, name: Seq<u8>)
    ensures
        slot_kopie(m, j, name) != Err::<Seq<u8>, FehlerArt>(FehlerArt::FehlendeAntwort),
    decreases m.len() - j,
{
    if 0 <= j < m.len() {
        lemma_slot_nie_fehlende(m, j + 1, name);
    }
}

proof fn lemma_vorlage_nie_fehlende(t: Seq<Option<XmlEreignisV>>, slot: Result<Seq<u8>, FehlerArt>)
    requires
        slot != Err::<Seq<u8>, FehlerArt>(FehlerArt::FehlendeAntwort),
    ensures
        vorlage_lauf(t, slot) != Err::<Seq<u8>, FehlerArt>(FehlerArt::FehlendeAntwort),
    decreases t.len(),
{
    if t.len() > 0 {
        lemma_vorlage_nie_fehlende(t.drop_last(), slot);
    }
}

proof fn lemma_vorlagen_phasen(m: Seq<Option<XmlEreignisV>>, vorlagen: Seq<Option<Seq<char>>>, n: int)
    requires
        0 <= n <= m.len(),
    ensures
        match vorlagen_lauf(m, vorlagen, n) {
            Ok(z) => !vorlagen_namen_lauf(m, n).1 && vorlagen_namen_lauf(m, n).0.len() == z.verbraucht,
            Err(f) => f == FehlerArt::FehlendeAntwort ==> vorlagen_namen_lauf(m, n).0.len() > vorlagen.len(),
        },
    decreases n,
{
    if n > 0 {
        lemma_vorlagen_phasen(m, vorlagen, n - 1);
        if let Ok(z0) = vorlagen_lauf(m, vorlagen, n - 1) {
            if let Some(e) = m[n - 1] {
                if z0.verbraucht < vorlagen.len() {
                    if let Some(text) = vorlagen[z0.verbraucht as int] {
                        lemma_slot_nie_fehlende(m, n, crate::utils::ereignis_name(e));
                        lemma_vorlage_nie_fehlende(xml_lesungen(text, true), slot_kopie(m, n, crate::utils::ereignis_name(e)));
                    }
                }
            }
        }
    }
}

/// Die Vorlagen, die [`crate::qwen::transform`] verbraucht, sind genau die
/// Namen von [`crate::qwen::vorlagen_namen`]: gelingt die Umwandlung, hat sie
/// so viele Vorlagen verbraucht, wie es Namen gibt; und gibt es zu jedem
/// Namen eine Vorlage (oder ihr Fehlen), fehlt nie eine.
pub proof fn gesetz_vorlagen_antworten(m: Seq<Option<XmlEreignisV>>, vorlagen: Seq<Option<Seq<char>>>)
    ensures
        vorlagen_lauf(m, vorlagen, m.len() as int) matches Ok(z) ==> !vorlagen_namen_lauf(m, m.len() as int).1
            && vorlagen_namen_lauf(m, m.len() as int).0.len() == z.verbraucht,
        vorlagen_namen_lauf(m, m.len() as int).0.len() <= vorlagen.len()
            ==> vorlagen_lauf(m, vorlagen, m.len() as int) != Err::<VorlagenZustand, FehlerArt>(FehlerArt::FehlendeAntwort),
{
    lemma_vorlagen_phasen(m, vorlagen, m.len() as int);
}

/// Ob die Lesung ein Start-Tag mit dem lokalen Namen `tag` ist.
pub open spec fn ist_start_lesung(l: Option<XmlEreignisV>, tag: Seq<u8>) -> bool {
    match l {
        Some(e) => ist_start(e, tag),
        None => false,
    }
}

/// Wie viele Start-Tags mit dem lokalen Namen `tag` unter den Lesungen sind.
pub open spec fn anzahl_starts(s: Seq<Option<XmlEreignisV>>, tag: Seq<u8>) -> nat
    decreases s.len(),
{
    if s.len() == 0 {
        0
    } else {
        anzahl_starts(s.drop_last(), tag) + if ist_start_lesung(s.last(), tag) { 1nat } else { 0nat }
    }
}

/// Jeder `<toml>`-Tag zählt: gelingt das Sammeln, gibt es genau so viele
/// Konfigurationen, wie es `<toml>`-Tags gibt.
pub proof fn gesetz_toml_jeder_tag(dir: Seq<char>, sprache: Option<Seq<char>>, s: Seq<Option<XmlEreignisV>>)
    ensures
        toml_ergebnis(dir, sprache, s) matches Ok(z) ==> z.kontexte.len() == anzahl_starts(s, "toml".spec_bytes()),
{
    lemma_toml_jeder_tag(dir, sprache, s);
    lemma_toml_direkt(dir, sprache, s);
}

proof fn lemma_toml_jeder_tag(dir: Seq<char>, sprache: Option<Seq<char>>, s: Seq<Option<XmlEreignisV>>)
    ensures
        toml_lauf(dir, sprache, s) matches Ok(z) ==> z.kontexte.len() == anzahl_starts(s, "toml".spec_bytes()),
    decreases s.len(),
{
    if s.len() > 0 {
        lemma_toml_jeder_tag(dir, sprache, s.drop_last());
    }
}

/// Gelingt das Lesen der `<tera>`-Tags, gibt es genau dann eine
/// Konfiguration, wenn es mindestens einen `<tera>`-Tag gibt.
pub proof fn gesetz_tera_konfiguration(dir: Seq<char>, s: Seq<Option<XmlEreignisV>>)
    ensures
        tera_ergebnis(dir, s) matches Ok(z) ==> (z.konfig is Some <==> anzahl_starts(s, "tera".spec_bytes()) > 0),
{
    lemma_tera_konfiguration(dir, s);
    lemma_tera_direkt(dir, s);
}

proof fn lemma_tera_konfiguration(dir: Seq<char>, s: Seq<Option<XmlEreignisV>>)
    ensures
        tera_lauf(dir, s) matches Ok(z) ==> (z.konfig is Some <==> anzahl_starts(s, "tera".spec_bytes()) > 0),
    decreases s.len(),
{
    if s.len() > 0 {
        lemma_tera_konfiguration(dir, s.drop_last());
    }
}

/// Ein Byte, das weder ein Tag noch einen Attributwert beenden oder beginnen
/// kann: kein `<`, `>`, `"` oder `'`.
pub open spec fn unbedenklich(b: u8) -> bool {
    b != 60u8 && b != 62u8 && b != 34u8 && b != 39u8
}

/// Ein maskierter Text enthält kein `<`, `>`, `"` oder `'` mehr: ein Wert,
/// der als Text eingefüllt wird, kann kein Markup erzeugen.
pub proof fn gesetz_maskiert_unbedenklich(s: Seq<u8>)
    ensures
        forall|i: int| 0 <= i < maskiert(s).len() ==> unbedenklich(#[trigger] maskiert(s)[i]),
    decreases s.len(),
{
    if s.len() > 0 {
        gesetz_maskiert_unbedenklich(s.drop_last());
        let a = maskiert(s.drop_last());
        let b = maskiert_byte(s.last());
        assert(maskiert(s) == a + b);
        assert forall|i: int| 0 <= i < maskiert(s).len() implies unbedenklich(#[trigger] maskiert(s)[i]) by {
            if i < a.len() {
                assert(maskiert(s)[i] == a[i]);
            } else {
                assert(maskiert(s)[i] == b[i - a.len()]);
            }
        }
    }
}

/// Ein Stück eines Ausgabepfads: ein Text oder ein Platzhalter
/// `+{schluessel}`.
pub enum Teil {
    Text(Seq<char>),
    Platzhalter(Seq<char>),
}

pub open spec fn teil_text(t: Teil) -> Seq<char> {
    match t {
        Teil::Text(u) => u,
        Teil::Platzhalter(k) => platzhalter(k),
    }
}

/// Der Text einer Folge von Stücken.
pub open spec fn teile_text(ts: Seq<Teil>) -> Seq<char>
    decreases ts.len(),
{
    if ts.len() == 0 {
        Seq::empty()
    } else {
        teil_text(ts[0]) + teile_text(ts.drop_first())
    }
}

/// Ein Schlüssel, der weder `+` noch `}` enthält.
pub open spec fn schluessel_ok(k: Seq<char>) -> bool {
    !k.contains('+') && !k.contains('}')
}

/// Ein `+` steht nur am Anfang eines Platzhalters.
pub open spec fn teile_ok(ts: Seq<Teil>) -> bool {
    forall|i: int| 0 <= i < ts.len() ==> match #[trigger] ts[i] {
        Teil::Text(u) => !u.contains('+'),
        Teil::Platzhalter(k) => schluessel_ok(k),
    }
}

/// Ein Wert als Stück.
pub open spec fn als_zeichen(v: Seq<char>) -> Seq<Teil> {
    seq![Teil::Text(v)]
}

/// Jeder Platzhalter eines Schlüssels, der im Datensatz steht, wird zu den
/// Zeichen seines (zuletzt eingetragenen) Werts; alles andere bleibt.
pub open spec fn einsetzen(ts: Seq<Teil>, felder: Seq<(Seq<char>, Seq<char>)>) -> Seq<Teil>
    decreases ts.len(),
{
    if ts.len() == 0 {
        Seq::empty()
    } else {
        let vorn = match ts[0] {
            Teil::Platzhalter(k) => match nachschlagen(felder, k) {
                Some(v) => als_zeichen(v),
                None => seq![ts[0]],
            },
            Teil::Text(_) => seq![ts[0]],
        };
        vorn + einsetzen(ts.drop_first(), felder)
    }
}

/// Ein Ersetzungsschritt auf Stücken: jeder Platzhalter von `k` wird zu den
/// Zeichen von `v`.
pub open spec fn ersetze_teile(ts: Seq<Teil>, k: Seq<char>, v: Seq<char>) -> Seq<Teil>
    decreases ts.len(),
{
    if ts.len() == 0 {
        Seq::empty()
    } else {
        let vorn = if ts[0] == Teil::Platzhalter(k) { als_zeichen(v) } else { seq![ts[0]] };
        vorn + ersetze_teile(ts.drop_first(), k, v)
    }
}

/// Die Ersetzungsschritte der ersten `n` Felder, wie der Ausgabepfad sie tut.
pub open spec fn ersetze_bis(ts: Seq<Teil>, felder: Seq<(Seq<char>, Seq<char>)>, n: int) -> Seq<Teil>
    decreases n,
{
    if n <= 0 {
        ts
    } else {
        let q = ersetze_bis(ts, felder, n - 1);
        if spaeter_belegt(felder, n - 1) { q } else { ersetze_teile(q, felder[n - 1].0, felder[n - 1].1) }
    }
}

/// Die letzte Stelle, an der ein Schlüssel im Datensatz steht.
pub open spec fn letzte(felder: Seq<(Seq<char>, Seq<char>)>, k: Seq<char>) -> Option<int>
    decreases felder.len(),
{
    if felder.len() == 0 {
        None
    } else if felder.last().0 == k {
        Some(felder.len() - 1)
    } else {
        letzte(felder.drop_last(), k)
    }
}

proof fn lemma_letzte(felder: Seq<(Seq<char>, Seq<char>)>, k: Seq<char>)
    ensures
        match letzte(felder, k) {
            Some(j) => 0 <= j < felder.len() && felder[j].0 == k
                && (forall|i: int| j < i < felder.len() ==> #[trigger] felder[i].0 != k)
                && nachschlagen(felder, k) == Some(felder[j].1),
            None => (forall|i: int| 0 <= i < felder.len() ==> #[trigger] felder[i].0 != k)
                && nachschlagen(felder, k) is None,
        },
    decreases felder.len(),
{
    if felder.len() > 0 {
        lemma_letzte(felder.drop_last(), k);
        assert forall|i: int| 0 <= i < felder.len() - 1 implies felder.drop_last()[i] == felder[i] by {}
    }
}

proof fn lemma_spaeter_belegt(felder: Seq<(Seq<char>, Seq<char>)>, j: int)
    requires
        0 <= j < felder.len(),
    ensures
        !spaeter_belegt(felder, j) <==> letzte(felder, felder[j].0) == Some(j),
{
    lemma_letzte(felder, felder[j].0);
    if letzte(felder, felder[j].0) == Some(j) {
        assert(!spaeter_belegt(felder, j));
    } else {
        match letzte(felder, felder[j].0) {
            Some(m) => {
                if m < j {
                    assert(false);
                }
                assert(j < m < felder.len() && felder[m].0 == felder[j].0);
            },
            None => {
                assert(felder[j].0 != felder[j].0);
            },
        }
    }
}

proof fn lemma_text_verkettung(a: Seq<Teil>, b: Seq<Teil>)
    ensures
        teile_text(a + b) == teile_text(a) + teile_text(b),
    decreases a.len(),
{
    if a.len() == 0 {
        assert(a + b =~= b);
    } else {
        assert((a + b).drop_first() =~= a.drop_first() + b);
        assert((a + b)[0] == a[0]);
        lemma_text_verkettung(a.drop_first(), b);
        assert(teil_text(a[0]) + teile_text(a.drop_first()) + teile_text(b)
            =~= teil_text(a[0]) + (teile_text(a.drop_first()) + teile_text(b)));
    }
}

proof fn lemma_als_zeichen(v: Seq<char>)
    ensures
        teile_text(als_zeichen(v)) == v,
        !v.contains('+') ==> teile_ok(als_zeichen(v)),
{
    lemma_text_einzeln(Teil::Text(v));
}

proof fn lemma_text_einzeln(t: Teil)
    ensures
        teile_text(seq![t]) == teil_text(t),
{
    assert(seq![t].drop_first() =~= Seq::<Teil>::empty());
    assert(teile_text(Seq::<Teil>::empty()) == Seq::<char>::empty());
    assert(teil_text(t) + Seq::<char>::empty() =~= teil_text(t));
}

proof fn lemma_ohne_plus_vorn(u: Seq<char>, t: Seq<char>, m: Seq<char>, n: Seq<char>)
    requires
        m.len() > 0,
        m[0] == '+',
        !u.contains('+'),
    ensures
        ersetzt(u + t, m, n) == u + ersetzt(t, m, n),
    decreases u.len(),
{
    if u.len() == 0 {
        assert(u + t =~= t);
    } else {
        let s = u + t;
        assert(s[0] == u[0]);
        assert(u.contains(u[0]));
        if s.len() >= m.len() {
            assert(s.subrange(0, m.len() as int)[0] != m[0]);
            assert(s.drop_first() =~= u.drop_first() + t);
            assert(!u.drop_first().contains('+')) by {
                if u.drop_first().contains('+') {
                    let i = choose|i: int| 0 <= i < u.drop_first().len() && u.drop_first()[i] == '+';
                    assert(u[i + 1] == '+');
                }
            }
            lemma_ohne_plus_vorn(u.drop_first(), t, m, n);
            assert(seq![s[0]] + (u.drop_first() + ersetzt(t, m, n)) =~= u + ersetzt(t, m, n));
        } else {
            assert(t.len() < m.len());
        }
    }
}

proof fn lemma_platzhalter_verschieden(k: Seq<char>, k2: Seq<char>, t: Seq<char>)
    requires
        k != k2,
        schluessel_ok(k),
        schluessel_ok(k2),
        platzhalter(k2).len() + t.len() >= platzhalter(k).len(),
    ensures
        (platzhalter(k2) + t).subrange(0, platzhalter(k).len() as int) != platzhalter(k),
{
    let s = platzhalter(k2) + t;
    let m = platzhalter(k);
    if k.len() < k2.len() {
        assert(m[2 + k.len() as int] == '}');
        assert(s[2 + k.len() as int] == k2[k.len() as int]);
        assert(k2.contains(k2[k.len() as int]));
        assert(s.subrange(0, m.len() as int)[2 + k.len() as int] != m[2 + k.len() as int]);
    } else if k.len() > k2.len() {
        assert(s[2 + k2.len() as int] == '}');
        assert(m[2 + k2.len() as int] == k[k2.len() as int]);
        assert(k.contains(k[k2.len() as int]));
        assert(s.subrange(0, m.len() as int)[2 + k2.len() as int] != m[2 + k2.len() as int]);
    } else {
        assert(exists|j: int| 0 <= j < k.len() && k[j] != k2[j]) by {
            if forall|j: int| 0 <= j < k.len() ==> k[j] == k2[j] {
                assert(k =~= k2);
            }
        }
        let j = choose|j: int| 0 <= j < k.len() && k[j] != k2[j];
        assert(s[2 + j] == k2[j]);
        assert(m[2 + j] == k[j]);
        assert(s.subrange(0, m.len() as int)[2 + j] != m[2 + j]);
    }
}

proof fn lemma_ersetze_teile(ts: Seq<Teil>, k: Seq<char>, v: Seq<char>)
    requires
        teile_ok(ts),
        schluessel_ok(k),
        !v.contains('+'),
    ensures
        ersetzt(teile_text(ts), platzhalter(k), v) == teile_text(ersetze_teile(ts, k, v)),
        teile_ok(ersetze_teile(ts, k, v)),
    decreases ts.len(),
{
    let m = platzhalter(k);
    if ts.len() == 0 {
        assert(teile_text(ts).len() == 0);
    } else {
        let rest = ts.drop_first();
        assert(teile_ok(rest)) by {
            assert forall|i: int| 0 <= i < rest.len() implies match #[trigger] rest[i] {
                Teil::Text(u) => !u.contains('+'),
                Teil::Platzhalter(k) => schluessel_ok(k),
            } by {
                assert(rest[i] == ts[i + 1]);
            }
        }
        lemma_ersetze_teile(rest, k, v);
        let t = teile_text(rest);
        let vorn = if ts[0] == Teil::Platzhalter(k) { als_zeichen(v) } else { seq![ts[0]] };
        lemma_als_zeichen(v);
        lemma_text_verkettung(vorn, ersetze_teile(rest, k, v));
        assert(teile_ok(vorn)) by {
            if ts[0] != Teil::Platzhalter(k) {
                assert forall|i: int| 0 <= i < vorn.len() implies match #[trigger] vorn[i] {
                    Teil::Text(u) => !u.contains('+'),
                    Teil::Platzhalter(k) => schluessel_ok(k),
                } by {
                    assert(vorn[i] == ts[0]);
                }
            }
        }
        let e = ersetze_teile(ts, k, v);
        assert(e == vorn + ersetze_teile(rest, k, v));
        assert(teile_ok(e)) by {
            assert forall|i: int| 0 <= i < e.len() implies match #[trigger] e[i] {
                Teil::Text(u) => !u.contains('+'),
                Teil::Platzhalter(k) => schluessel_ok(k),
            } by {
                if i < vorn.len() {
                    assert(e[i] == vorn[i]);
                } else {
                    assert(e[i] == ersetze_teile(rest, k, v)[i - vorn.len()]);
                }
            }
        }
        assert(teile_text(ts) == teil_text(ts[0]) + t);
        lemma_text_einzeln(ts[0]);
        match ts[0] {
            Teil::Text(u) => {
                lemma_ohne_plus_vorn(u, t, m, v);
            },
            Teil::Platzhalter(k2) => {
                assert(schluessel_ok(k2));
                if k2 == k {
                    let s = m + t;
                    assert(s.subrange(0, m.len() as int) =~= m);
                    assert(s.subrange(m.len() as int, s.len() as int) =~= t);
                } else {
                    let s = platzhalter(k2) + t;
                    let u = seq!['{'] + k2 + seq!['}'];
                    assert(!u.contains('+')) by {
                        if u.contains('+') {
                            let i = choose|i: int| 0 <= i < u.len() && u[i] == '+';
                            if 1 <= i < 1 + k2.len() {
                                assert(k2[i - 1] == '+');
                                assert(k2.contains('+'));
                            }
                        }
                    }
                    if s.len() >= m.len() {
                        lemma_platzhalter_verschieden(k, k2, t);
                        assert(s.drop_first() =~= u + t);
                        lemma_ohne_plus_vorn(u, t, m, v);
                        assert(seq![s[0]] + (u + ersetzt(t, m, v)) =~= platzhalter(k2) + ersetzt(t, m, v));
                    } else {
                        assert(t.len() < m.len());
                    }
                }
            },
        }
    }
}

proof fn lemma_ersetze_verkettung(a: Seq<Teil>, b: Seq<Teil>, k: Seq<char>, v: Seq<char>)
    ensures
        ersetze_teile(a + b, k, v) == ersetze_teile(a, k, v) + ersetze_teile(b, k, v),
    decreases a.len(),
{
    if a.len() == 0 {
        assert(a + b =~= b);
        assert(ersetze_teile(a, k, v) + ersetze_teile(b, k, v) =~= ersetze_teile(b, k, v));
    } else {
        assert((a + b).drop_first() =~= a.drop_first() + b);
        assert((a + b)[0] == a[0]);
        lemma_ersetze_verkettung(a.drop_first(), b, k, v);
        let vorn = if a[0] == Teil::Platzhalter(k) { als_zeichen(v) } else { seq![a[0]] };
        assert(vorn + (ersetze_teile(a.drop_first(), k, v) + ersetze_teile(b, k, v))
            =~= vorn + ersetze_teile(a.drop_first(), k, v) + ersetze_teile(b, k, v));
    }
}

proof fn lemma_ersetze_zeichen(v: Seq<char>, k: Seq<char>, w: Seq<char>)
    ensures
        ersetze_teile(als_zeichen(v), k, w) == als_zeichen(v),
{
    assert(als_zeichen(v).drop_first() =~= Seq::<Teil>::empty());
    assert(ersetze_teile(Seq::<Teil>::empty(), k, w) =~= Seq::<Teil>::empty());
    assert(ersetze_teile(als_zeichen(v), k, w) =~= als_zeichen(v));
}

/// Die Felder, deren Schlüssel kein `+` und kein `}` und deren Werte kein `+`
/// enthalten.
pub open spec fn felder_ok(felder: Seq<(Seq<char>, Seq<char>)>) -> bool {
    forall|i: int| 0 <= i < felder.len() ==> schluessel_ok(#[trigger] felder[i].0) && !felder[i].1.contains('+')
}

proof fn lemma_ersetze_bis(ts: Seq<Teil>, felder: Seq<(Seq<char>, Seq<char>)>, n: int)
    requires
        teile_ok(ts),
        felder_ok(felder),
        n <= felder.len(),
    ensures
        ausgabepfad_bis(teile_text(ts), felder, n) == teile_text(ersetze_bis(ts, felder, n)),
        teile_ok(ersetze_bis(ts, felder, n)),
    decreases n,
{
    if n > 0 {
        lemma_ersetze_bis(ts, felder, n - 1);
        if !spaeter_belegt(felder, n - 1) {
            assert(schluessel_ok(felder[n - 1].0));
            lemma_ersetze_teile(ersetze_bis(ts, felder, n - 1), felder[n - 1].0, felder[n - 1].1);
        }
    }
}

proof fn lemma_ersetze_bis_verkettung(a: Seq<Teil>, b: Seq<Teil>, felder: Seq<(Seq<char>, Seq<char>)>, n: int)
    ensures
        ersetze_bis(a + b, felder, n) == ersetze_bis(a, felder, n) + ersetze_bis(b, felder, n),
    decreases n,
{
    if n > 0 {
        lemma_ersetze_bis_verkettung(a, b, felder, n - 1);
        if !spaeter_belegt(felder, n - 1) {
            lemma_ersetze_verkettung(ersetze_bis(a, felder, n - 1), ersetze_bis(b, felder, n - 1),
                felder[n - 1].0, felder[n - 1].1);
        }
    }
}

proof fn lemma_ersetze_bis_teil(t: Teil, felder: Seq<(Seq<char>, Seq<char>)>, n: int)
    requires
        0 <= n <= felder.len(),
    ensures
        ersetze_bis(seq![t], felder, n) == match t {
            Teil::Platzhalter(k) => match letzte(felder, k) {
                Some(j) => if j < n { als_zeichen(felder[j].1) } else { seq![t] },
                None => seq![t],
            },
            Teil::Text(_) => seq![t],
        },
    decreases n,
{
    if let Teil::Platzhalter(k) = t {
        lemma_letzte(felder, k);
    }
    if n > 0 {
        lemma_ersetze_bis_teil(t, felder, n - 1);
        let q = ersetze_bis(seq![t], felder, n - 1);
        let k1 = felder[n - 1].0;
        let v1 = felder[n - 1].1;
        lemma_spaeter_belegt(felder, n - 1);
        if !spaeter_belegt(felder, n - 1) {
            assert(seq![t].drop_first() =~= Seq::<Teil>::empty());
            assert(ersetze_teile(Seq::<Teil>::empty(), k1, v1) =~= Seq::<Teil>::empty());
            match t {
                Teil::Text(_) => {
                    assert(ersetze_teile(seq![t], k1, v1) =~= seq![t]);
                },
                Teil::Platzhalter(k) => {
                    lemma_letzte(felder, k);
                    match letzte(felder, k) {
                        Some(j) => {
                            if j < n - 1 {
                                lemma_ersetze_zeichen(felder[j].1, k1, v1);
                            } else if j == n - 1 {
                                assert(letzte(felder, k) == Some(j));
                                assert(felder[j].0 == k);
                                assert(felder[n - 1].0 == k);
                                assert(k =~= k1);
                                assert(t == Teil::Platzhalter(k1));
                                assert(ersetze_teile(seq![t], k1, v1) =~= als_zeichen(v1) + Seq::<Teil>::empty());
                                assert(als_zeichen(v1) + Seq::<Teil>::empty() =~= als_zeichen(v1));
                            } else {
                                assert(k1 != k);
                                assert(ersetze_teile(seq![t], k1, v1) =~= seq![t]);
                            }
                        },
                        None => {
                            assert(k1 != k);
                            assert(ersetze_teile(seq![t], k1, v1) =~= seq![t]);
                        },
                    }
                },
            }
        } else {
            match t {
                Teil::Platzhalter(k) => {
                    lemma_letzte(felder, k);
                    if letzte(felder, k) == Some(n - 1) {
                        assert(k =~= k1);
                    }
                },
                _ => {},
            }
        }
    }
}

proof fn lemma_einsetzen(ts: Seq<Teil>, felder: Seq<(Seq<char>, Seq<char>)>)
    ensures
        ersetze_bis(ts, felder, felder.len() as int) == einsetzen(ts, felder),
    decreases ts.len(),
{
    let n = felder.len() as int;
    if ts.len() == 0 {
        assert(ts =~= Seq::<Teil>::empty());
        lemma_ersetze_bis_leer(felder, n);
    } else {
        assert(ts =~= seq![ts[0]] + ts.drop_first());
        lemma_ersetze_bis_verkettung(seq![ts[0]], ts.drop_first(), felder, n);
        lemma_ersetze_bis_teil(ts[0], felder, n);
        lemma_einsetzen(ts.drop_first(), felder);
        match ts[0] {
            Teil::Platzhalter(k) => {
                lemma_letzte(felder, k);
            },
            _ => {},
        }
    }
}

proof fn lemma_ersetze_bis_leer(felder: Seq<(Seq<char>, Seq<char>)>, n: int)
    ensures
        ersetze_bis(Seq::<Teil>::empty(), felder, n) == Seq::<Teil>::empty(),
    decreases n,
{
    if n > 0 {
        lemma_ersetze_bis_leer(felder, n - 1);
        assert(ersetze_teile(Seq::<Teil>::empty(), felder[n - 1].0, felder[n - 1].1) =~= Seq::<Teil>::empty());
    }
}

/// Kein Platzhalter der Stücke gehört zu einem Schlüssel des Datensatzes.
pub open spec fn ohne_belegte_platzhalter(ts: Seq<Teil>, felder: Seq<(Seq<char>, Seq<char>)>) -> bool {
    forall|i: int| 0 <= i < ts.len() ==> match #[trigger] ts[i] {
        Teil::Platzhalter(k) => nachschlagen(felder, k) is None,
        Teil::Text(_) => true,
    }
}

proof fn lemma_einsetzen_ohne_belegte(ts: Seq<Teil>, felder: Seq<(Seq<char>, Seq<char>)>)
    ensures
        ohne_belegte_platzhalter(einsetzen(ts, felder), felder),
    decreases ts.len(),
{
    if ts.len() > 0 {
        let rest = ts.drop_first();
        lemma_einsetzen_ohne_belegte(rest, felder);
        let vorn = match ts[0] {
            Teil::Platzhalter(k) => match nachschlagen(felder, k) {
                Some(v) => als_zeichen(v),
                None => seq![ts[0]],
            },
            Teil::Text(_) => seq![ts[0]],
        };
        let e = einsetzen(ts, felder);
        assert(e == vorn + einsetzen(rest, felder));
        assert forall|i: int| 0 <= i < e.len() implies match #[trigger] e[i] {
            Teil::Platzhalter(k) => nachschlagen(felder, k) is None,
            Teil::Text(_) => true,
        } by {
            if i < vorn.len() {
                assert(e[i] == vorn[i]);
            } else {
                assert(e[i] == einsetzen(rest, felder)[i - vorn.len()]);
            }
        }
    }
}

/// Besteht ein Ausgabepfad aus Textstücken und Platzhaltern `+{schluessel}`
/// und passen Pfad und Datensatz zueinander ([`pfad_passt`]), dann wird jeder
/// Platzhalter eines Schlüssels des Datensatzes durch dessen (zuletzt
/// eingetragenen) Wert ersetzt, und alles andere bleibt; kein Platzhalter
/// eines Schlüssels des Datensatzes bleibt stehen.
pub proof fn gesetz_ausgabepfad_einsetzen(ts: Seq<Teil>, felder: Seq<(Seq<char>, Seq<char>)>)
    requires
        pfad_passt(ts, felder),
    ensures
        ausgabepfad(teile_text(ts), felder) == teile_text(einsetzen(ts, felder)),
        ohne_belegte_platzhalter(einsetzen(ts, felder), felder),
{
    lemma_einsetzen_ohne_belegte(ts, felder);
    if teile_ok(ts) && felder_ok(felder) {
        lemma_ersetze_bis(ts, felder, felder.len() as int);
    } else {
        lemma_ersetze_bis_plus(ts, felder, felder.len() as int);
    }
    lemma_einsetzen(ts, felder);
}

/// Unter denselben Bedingungen hängt der Ausgabepfad nur davon ab, welcher
/// Wert zu welchem Schlüssel gilt, nicht von der Reihenfolge der Felder.
pub proof fn gesetz_ausgabepfad_reihenfolge(
    ts: Seq<Teil>,
    felder1: Seq<(Seq<char>, Seq<char>)>,
    felder2: Seq<(Seq<char>, Seq<char>)>,
)
    requires
        pfad_passt(ts, felder1),
        pfad_passt(ts, felder2),
        forall|k: Seq<char>| #[trigger] nachschlagen(felder1, k) == nachschlagen(felder2, k),
    ensures
        ausgabepfad(teile_text(ts), felder1) == ausgabepfad(teile_text(ts), felder2),
{
    gesetz_ausgabepfad_einsetzen(ts, felder1);
    gesetz_ausgabepfad_einsetzen(ts, felder2);
    lemma_einsetzen_gleich(ts, felder1, felder2);
}

proof fn lemma_einsetzen_gleich(
    ts: Seq<Teil>,
    felder1: Seq<(Seq<char>, Seq<char>)>,
    felder2: Seq<(Seq<char>, Seq<char>)>,
)
    requires
        forall|k: Seq<char>| #[trigger] nachschlagen(felder1, k) == nachschlagen(felder2, k),
    ensures
        einsetzen(ts, felder1) == einsetzen(ts, felder2),
    decreases ts.len(),
{
    if ts.len() > 0 {
        lemma_einsetzen_gleich(ts.drop_first(), felder1, felder2);
        match ts[0] {
            Teil::Platzhalter(k) => {
                assert(nachschlagen(felder1, k) == nachschlagen(felder2, k));
            },
            _ => {},
        }
    }
}

/// Jedes `+` von `u` steht vor einem anderen Zeichen als `{`; für das
/// letzte Zeichen von `u` zählt das erste von `t`, das folgt.
pub open spec fn plus_frei(u: Seq<char>, t: Seq<char>) -> bool {
    forall|j: int| 0 <= j < u.len() && #[trigger] u[j] == '+' && j + 1 < (u + t).len() ==> (u + t)[j + 1] != '{'
}

/// Ein `+` eines Textstücks beginnt nie `+{`, auch nicht mit dem, was folgt;
/// die Schlüssel der Platzhalter enthalten weder `+` noch `}`.
pub open spec fn teile_plus_ok(ts: Seq<Teil>) -> bool
    decreases ts.len(),
{
    ts.len() == 0 || (teile_plus_ok(ts.drop_first()) && match ts[0] {
        Teil::Text(u) => plus_frei(u, teile_text(ts.drop_first())),
        Teil::Platzhalter(k) => schluessel_ok(k),
    })
}

/// Die Felder, deren Schlüssel kein `+` und kein `}` enthalten und deren
/// Werte nicht leer sind, kein `+` enthalten und nicht mit `{` beginnen.
pub open spec fn felder_plus_ok(felder: Seq<(Seq<char>, Seq<char>)>) -> bool {
    forall|i: int| 0 <= i < felder.len() ==> schluessel_ok(#[trigger] felder[i].0) && !felder[i].1.contains('+')
        && felder[i].1.len() > 0 && felder[i].1[0] != '{'
}

/// Die Bedingungen, unter denen das Einsetzen platzhalterweise geschieht:
/// Texte ohne `+` (dann dürfen die Werte auch leer sein oder mit `{`
/// beginnen), oder Texte, in denen kein `+` ein `+{` beginnt, mit nicht
/// leeren Werten, die nicht mit `{` beginnen.
pub open spec fn pfad_passt(ts: Seq<Teil>, felder: Seq<(Seq<char>, Seq<char>)>) -> bool {
    (teile_ok(ts) && felder_ok(felder)) || (teile_plus_ok(ts) && felder_plus_ok(felder))
}

proof fn lemma_plus_frei_vorn(u: Seq<char>, t: Seq<char>, m: Seq<char>, n: Seq<char>)
    requires
        m.len() >= 2,
        m[0] == '+',
        m[1] == '{',
        plus_frei(u, t),
    ensures
        ersetzt(u + t, m, n) == u + ersetzt(t, m, n),
    decreases u.len(),
{
    if u.len() == 0 {
        assert(u + t =~= t);
    } else {
        let s = u + t;
        assert(s[0] == u[0]);
        if s.len() >= m.len() {
            if u[0] == '+' {
                assert(s[1] != '{');
                assert(s.subrange(0, m.len() as int)[1] != m[1]);
            } else {
                assert(s.subrange(0, m.len() as int)[0] != m[0]);
            }
            let u1 = u.drop_first();
            assert(s.drop_first() =~= u1 + t);
            assert(plus_frei(u1, t)) by {
                assert forall|j: int| 0 <= j < u1.len() && #[trigger] u1[j] == '+' && j + 1 < (u1 + t).len()
                    implies (u1 + t)[j + 1] != '{' by {
                    assert(u[j + 1] == '+');
                    assert((u1 + t)[j + 1] == s[j + 2]);
                }
            }
            lemma_plus_frei_vorn(u1, t, m, n);
            assert(seq![s[0]] + (u1 + ersetzt(t, m, n)) =~= u + ersetzt(t, m, n));
        } else {
            assert(t.len() < m.len());
        }
    }
}

proof fn lemma_ersetzt_anfang(t: Seq<char>, m: Seq<char>, v: Seq<char>)
    requires
        m.len() > 0,
        m[0] == '+',
        v.len() > 0,
        v[0] != '{',
    ensures
        ersetzt(t, m, v).len() > 0 <==> t.len() > 0,
        ersetzt(t, m, v).len() > 0 && ersetzt(t, m, v)[0] == '{' ==> t[0] == '{',
{
    if t.len() >= m.len() {
        if t.subrange(0, m.len() as int) == m {
            assert(t[0] == t.subrange(0, m.len() as int)[0]);
        }
    }
}

proof fn lemma_plus_frei_weiter(u: Seq<char>, t: Seq<char>, t2: Seq<char>)
    requires
        plus_frei(u, t),
        t.len() > 0 <==> t2.len() > 0,
        t2.len() > 0 && t2[0] == '{' ==> t[0] == '{',
    ensures
        plus_frei(u, t2),
{
    assert forall|j: int| 0 <= j < u.len() && #[trigger] u[j] == '+' && j + 1 < (u + t2).len()
        implies (u + t2)[j + 1] != '{' by {
        if j + 1 == u.len() {
            assert((u + t2)[j + 1] == t2[0]);
            assert((u + t)[j + 1] == t[0]);
        } else {
            assert((u + t2)[j + 1] == u[j + 1]);
            assert((u + t)[j + 1] == u[j + 1]);
        }
    }
}

proof fn lemma_plus_ok_vorn(x: Teil, e: Seq<Teil>)
    ensures
        teile_plus_ok(seq![x] + e) == (teile_plus_ok(e) && match x {
            Teil::Text(u) => plus_frei(u, teile_text(e)),
            Teil::Platzhalter(k) => schluessel_ok(k),
        }),
        teile_text(seq![x] + e) == teil_text(x) + teile_text(e),
{
    assert((seq![x] + e).drop_first() =~= e);
    assert((seq![x] + e)[0] == x);
}

proof fn lemma_ersetze_teile_plus(ts: Seq<Teil>, k: Seq<char>, v: Seq<char>)
    requires
        teile_plus_ok(ts),
        schluessel_ok(k),
        !v.contains('+'),
        v.len() > 0,
        v[0] != '{',
    ensures
        ersetzt(teile_text(ts), platzhalter(k), v) == teile_text(ersetze_teile(ts, k, v)),
        teile_plus_ok(ersetze_teile(ts, k, v)),
    decreases ts.len(),
{
    let m = platzhalter(k);
    if ts.len() == 0 {
        assert(teile_text(ts).len() == 0);
    } else {
        let rest = ts.drop_first();
        lemma_ersetze_teile_plus(rest, k, v);
        let t = teile_text(rest);
        let er = ersetze_teile(rest, k, v);
        assert(ts =~= seq![ts[0]] + rest);
        lemma_plus_ok_vorn(ts[0], rest);
        lemma_ersetzt_anfang(t, m, v);
        if ts[0] == Teil::Platzhalter(k) {
            let x = Teil::Text(v);
            assert(ersetze_teile(ts, k, v) == seq![x] + er);
            lemma_plus_ok_vorn(x, er);
            assert(plus_frei(v, teile_text(er))) by {
                assert forall|j: int| 0 <= j < v.len() && #[trigger] v[j] == '+' && j + 1 < (v + teile_text(er)).len()
                    implies (v + teile_text(er))[j + 1] != '{' by {
                    assert(v.contains(v[j]));
                }
            }
            let s = m + t;
            assert(s.subrange(0, m.len() as int) =~= m);
            assert(s.subrange(m.len() as int, s.len() as int) =~= t);
        } else {
            let x = ts[0];
            assert(ersetze_teile(ts, k, v) == seq![x] + er);
            lemma_plus_ok_vorn(x, er);
            match x {
                Teil::Text(u) => {
                    lemma_plus_frei_weiter(u, t, teile_text(er));
                    lemma_plus_frei_vorn(u, t, m, v);
                },
                Teil::Platzhalter(k2) => {
                    let s = platzhalter(k2) + t;
                    let u = seq!['{'] + k2 + seq!['}'];
                    assert(!u.contains('+')) by {
                        if u.contains('+') {
                            let i = choose|i: int| 0 <= i < u.len() && u[i] == '+';
                            if 1 <= i < 1 + k2.len() {
                                assert(k2[i - 1] == '+');
                                assert(k2.contains('+'));
                            }
                        }
                    }
                    if s.len() >= m.len() {
                        lemma_platzhalter_verschieden(k, k2, t);
                        assert(s.drop_first() =~= u + t);
                        lemma_ohne_plus_vorn(u, t, m, v);
                        assert(seq![s[0]] + (u + ersetzt(t, m, v)) =~= platzhalter(k2) + ersetzt(t, m, v));
                    } else {
                        assert(t.len() < m.len());
                    }
                },
            }
        }
    }
}

proof fn lemma_ersetze_bis_plus(ts: Seq<Teil>, felder: Seq<(Seq<char>, Seq<char>)>, n: int)
    requires
        teile_plus_ok(ts),
        felder_plus_ok(felder),
        n <= felder.len(),
    ensures
        ausgabepfad_bis(teile_text(ts), felder, n) == teile_text(ersetze_bis(ts, felder, n)),
        teile_plus_ok(ersetze_bis(ts, felder, n)),
    decreases n,
{
    if n > 0 {
        lemma_ersetze_bis_plus(ts, felder, n - 1);
        if !spaeter_belegt(felder, n - 1) {
            assert(schluessel_ok(felder[n - 1].0));
            lemma_ersetze_teile_plus(ersetze_bis(ts, felder, n - 1), felder[n - 1].0, felder[n - 1].1);
        }
    }
}

/// Lesbare Attribute als Lesungen des Attribut-Iterators.
pub open spec fn als_lesungen(attrs: Seq<(Seq<u8>, Seq<u8>)>) -> Seq<Option<(Seq<u8>, Seq<u8>)>> {
    attrs.map_values(|kv: (Seq<u8>, Seq<u8>)| Some(kv))
}

/// Ob der lokale Name eines Attributs nicht unter `namen` ist.
pub open spec fn nicht_in(namen: Seq<Seq<u8>>) -> spec_fn((Seq<u8>, Seq<u8>)) -> bool {
    |kv: (Seq<u8>, Seq<u8>)| !namen.contains(lokaler_name(kv.0))
}

proof fn lemma_filtern_als_filter(attrs: Seq<(Seq<u8>, Seq<u8>)>, namen: Seq<Seq<u8>>)
    ensures
        attribute_filtern(als_lesungen(attrs), namen, false) == Ok::<Seq<(Seq<u8>, Seq<u8>)>, ()>(
            attrs.filter(nicht_in(namen))),
    decreases attrs.len(),
{
    reveal(Seq::filter);
    if attrs.len() > 0 {
        lemma_filtern_als_filter(attrs.drop_last(), namen);
        let a = als_lesungen(attrs);
        assert(a.len() == attrs.len());
        assert(a.drop_last() =~= als_lesungen(attrs.drop_last()));
        assert(a.last() == Some(attrs.last()));
        let vorne = attrs.drop_last().filter(nicht_in(namen));
        assert(attribute_filtern(a.drop_last(), namen, false) == Ok::<Seq<(Seq<u8>, Seq<u8>)>, ()>(vorne));
        assert(attrs.filter(nicht_in(namen)) == if nicht_in(namen)(attrs.last()) { vorne.push(attrs.last()) } else { vorne });
        assert(nicht_in(namen)(attrs.last()) == !namen.contains(lokaler_name(attrs.last().0)));
    } else {
        assert(als_lesungen(attrs).len() == 0);
        assert(attrs.filter(nicht_in(namen)) == attrs);
        assert(attrs =~= Seq::<(Seq<u8>, Seq<u8>)>::empty());
    }
}

proof fn lemma_filter_gleich(
    attrs: Seq<(Seq<u8>, Seq<u8>)>,
    p: spec_fn((Seq<u8>, Seq<u8>)) -> bool,
    q: spec_fn((Seq<u8>, Seq<u8>)) -> bool,
)
    requires
        forall|kv: (Seq<u8>, Seq<u8>)| #[trigger] p(kv) == q(kv),
    ensures
        attrs.filter(p) == attrs.filter(q),
    decreases attrs.len(),
{
    reveal(Seq::filter);
    if attrs.len() > 0 {
        lemma_filter_gleich(attrs.drop_last(), p, q);
    }
}

proof fn lemma_zwei_namen(a: Seq<u8>, b: Seq<u8>, x: Seq<u8>)
    ensures
        seq![a, b].contains(x) == (x == a || x == b),
{
    if x == a {
        assert(seq![a, b][0] == a);
    }
    if x == b {
        assert(seq![a, b][1] == b);
    }
}

proof fn lemma_drei_namen(a: Seq<u8>, b: Seq<u8>, c: Seq<u8>, x: Seq<u8>)
    ensures
        seq![a, b, c].contains(x) == (x == a || x == b || x == c),
{
    if x == a {
        assert(seq![a, b, c][0] == a);
    }
    if x == b {
        assert(seq![a, b, c][1] == b);
    }
    if x == c {
        assert(seq![a, b, c][2] == c);
    }
}

/// Die Attribute, deren lokaler Name weder `a` noch `b` ist, in ihrer
/// Reihenfolge.
pub open spec fn ohne_zwei(attrs: Seq<(Seq<u8>, Seq<u8>)>, a: Seq<u8>, b: Seq<u8>) -> Seq<(Seq<u8>, Seq<u8>)> {
    attrs.filter(|kv: (Seq<u8>, Seq<u8>)| lokaler_name(kv.0) != a && lokaler_name(kv.0) != b)
}

/// Die Attribute, deren lokaler Name weder `a` noch `b` noch `c` ist, in
/// ihrer Reihenfolge.
pub open spec fn ohne_drei(attrs: Seq<(Seq<u8>, Seq<u8>)>, a: Seq<u8>, b: Seq<u8>, c: Seq<u8>) -> Seq<(Seq<u8>, Seq<u8>)> {
    attrs.filter(|kv: (Seq<u8>, Seq<u8>)| lokaler_name(kv.0) != a && lokaler_name(kv.0) != b && lokaler_name(kv.0) != c)
}

proof fn lemma_ohne_zwei(attrs: Seq<(Seq<u8>, Seq<u8>)>, a: Seq<u8>, b: Seq<u8>)
    ensures
        attribute_filtern(als_lesungen(attrs), seq![a, b], false)
            == Ok::<Seq<(Seq<u8>, Seq<u8>)>, ()>(ohne_zwei(attrs, a, b)),
{
    lemma_filtern_als_filter(attrs, seq![a, b]);
    let p = nicht_in(seq![a, b]);
    let q = |kv: (Seq<u8>, Seq<u8>)| lokaler_name(kv.0) != a && lokaler_name(kv.0) != b;
    assert forall|kv: (Seq<u8>, Seq<u8>)| #[trigger] p(kv) == q(kv) by {
        lemma_zwei_namen(a, b, lokaler_name(kv.0));
    }
    lemma_filter_gleich(attrs, p, q);
}

proof fn lemma_ohne_drei(attrs: Seq<(Seq<u8>, Seq<u8>)>, a: Seq<u8>, b: Seq<u8>, c: Seq<u8>)
    ensures
        attribute_filtern(als_lesungen(attrs), seq![a, b, c], false)
            == Ok::<Seq<(Seq<u8>, Seq<u8>)>, ()>(ohne_drei(attrs, a, b, c)),
{
    lemma_filtern_als_filter(attrs, seq![a, b, c]);
    let p = nicht_in(seq![a, b, c]);
    let q = |kv: (Seq<u8>, Seq<u8>)| lokaler_name(kv.0) != a && lokaler_name(kv.0) != b && lokaler_name(kv.0) != c;
    assert forall|kv: (Seq<u8>, Seq<u8>)| #[trigger] p(kv) == q(kv) by {
        lemma_drei_namen(a, b, c, lokaler_name(kv.0));
    }
    lemma_filter_gleich(attrs, p, q);
}

/// `i` ist die letzte Stelle, an der ein Feld den Namen `name` hat.
pub open spec fn ist_letztes_feld(felder: Seq<(Seq<char>, Seq<char>)>, name: Seq<char>, i: int) -> bool {
    0 <= i < felder.len() && felder[i].0 == name && forall|j: int| i < j < felder.len() ==> #[trigger] felder[j].0 != name
}

/// Der Wert der Spalte `name`: der des letzten Felds mit diesem Namen, leer,
/// wenn keines ihn hat.
pub open spec fn letzter_wert(felder: Seq<(Seq<char>, Seq<char>)>, name: Seq<char>) -> Seq<char> {
    if exists|i: int| ist_letztes_feld(felder, name, i) {
        felder[choose|i: int| ist_letztes_feld(felder, name, i)].1
    } else {
        Seq::empty()
    }
}

proof fn lemma_letzter_wert(felder: Seq<(Seq<char>, Seq<char>)>, name: Seq<char>)
    ensures
        wert_oder_leer(felder, name) == letzter_wert(felder, name),
{
    lemma_letzte(felder, name);
    match letzte(felder, name) {
        Some(j) => {
            assert(ist_letztes_feld(felder, name, j));
            let c = choose|i: int| ist_letztes_feld(felder, name, i);
            if c < j {
                assert(felder[j].0 != name);
            }
            if j < c {
                assert(felder[c].0 != name);
            }
        },
        None => {
            if exists|i: int| ist_letztes_feld(felder, name, i) {
                let c = choose|i: int| ist_letztes_feld(felder, name, i);
                assert(felder[c].0 != name);
            }
        },
    }
}

/// Ein `<column content=".." tag="..">` ohne `attribute` wird zum Tag `tag`,
/// der jedes Attribut des `<column>` trägt, dessen lokaler Name weder
/// `content` noch `tag` ist, in seiner Reihenfolge; darin steht der maskierte
/// Wert der Spalte (leer, wenn der Datensatz sie nicht hat), und der Tag
/// bleibt offen bis zum passenden `</column>`.
pub proof fn gesetz_spalte_als_text(
    felder: Seq<(Seq<char>, Seq<char>)>,
    z: SpaltenZustand,
    e: XmlEreignisV,
    attrs: Seq<(Seq<u8>, Seq<u8>)>,
    wert: Seq<u8>,
    tag: Seq<u8>,
)
    requires
        ist_start(e, "column".spec_bytes()),
        tag_attribute(e) == als_lesungen(attrs),
        attributtext(e, "content".spec_bytes()) == Ok::<Option<Seq<u8>>, ()>(Some(wert)),
        attributtext(e, "tag".spec_bytes()) == Ok::<Option<Seq<u8>>, ()>(Some(tag)),
        attributtext(e, "attribute".spec_bytes()) == Ok::<Option<Seq<u8>>, ()>(None),
    ensures
        spalten_schritt(felder, z, Some(e)) == Ok::<SpaltenZustand, FehlerArt>(SpaltenZustand {
            ausgabe: z.ausgabe + seq![60u8] + tag
                + attribute_bytes(ohne_zwei(attrs, "content".spec_bytes(), "tag".spec_bytes())) + seq![62u8]
                + maskiert(encode_utf8(letzter_wert(felder, decode_utf8(wert)))),
            offen: z.offen.push(tag),
        }),
{
    lemma_ohne_zwei(attrs, "content".spec_bytes(), "tag".spec_bytes());
    lemma_letzter_wert(felder, decode_utf8(wert));
    let r = spalten_schritt(felder, z, Some(e)).unwrap();
    assert(r.ausgabe =~= z.ausgabe + seq![60u8] + tag
        + attribute_bytes(ohne_zwei(attrs, "content".spec_bytes(), "tag".spec_bytes())) + seq![62u8]
        + maskiert(encode_utf8(letzter_wert(felder, decode_utf8(wert)))));
}

/// Ein `<column content=".." tag=".." attribute="a">` wird zum Tag `tag`, der
/// jedes Attribut des `<column>` trägt, dessen lokaler Name weder `content`
/// noch `tag` noch `attribute` ist, in seiner Reihenfolge, und zuletzt `a` mit
/// dem Wert der Spalte.
pub proof fn gesetz_spalte_als_attribut(
    felder: Seq<(Seq<char>, Seq<char>)>,
    z: SpaltenZustand,
    e: XmlEreignisV,
    attrs: Seq<(Seq<u8>, Seq<u8>)>,
    wert: Seq<u8>,
    tag: Seq<u8>,
    a: Seq<u8>,
)
    requires
        ist_start(e, "column".spec_bytes()),
        tag_attribute(e) == als_lesungen(attrs),
        attributtext(e, "content".spec_bytes()) == Ok::<Option<Seq<u8>>, ()>(Some(wert)),
        attributtext(e, "tag".spec_bytes()) == Ok::<Option<Seq<u8>>, ()>(Some(tag)),
        attributtext(e, "attribute".spec_bytes()) == Ok::<Option<Seq<u8>>, ()>(Some(a)),
    ensures
        spalten_schritt(felder, z, Some(e)) == Ok::<SpaltenZustand, FehlerArt>(SpaltenZustand {
            ausgabe: z.ausgabe + seq![60u8] + tag
                + attribute_bytes(ohne_drei(attrs, "content".spec_bytes(), "tag".spec_bytes(), "attribute".spec_bytes()))
                + attribut_bytes((a, encode_utf8(letzter_wert(felder, decode_utf8(wert))))) + seq![62u8],
            offen: z.offen.push(tag),
        }),
{
    lemma_ohne_drei(attrs, "content".spec_bytes(), "tag".spec_bytes(), "attribute".spec_bytes());
    lemma_letzter_wert(felder, decode_utf8(wert));
    let behalten = ohne_drei(attrs, "content".spec_bytes(), "tag".spec_bytes(), "attribute".spec_bytes());
    let kv = (a, encode_utf8(letzter_wert(felder, decode_utf8(wert))));
    assert(behalten.push(kv).drop_last() =~= behalten);
    assert(attribute_bytes(behalten.push(kv)) == attribute_bytes(behalten) + attribut_bytes(kv));
    let r = spalten_schritt(felder, z, Some(e)).unwrap();
    assert(r.ausgabe =~= z.ausgabe + seq![60u8] + tag + attribute_bytes(behalten) + attribut_bytes(kv) + seq![62u8]);
}

/// Ein `<md src=".." tag="..">` wird zum Tag `tag`, der jedes Attribut des
/// `<md>` trägt, dessen lokaler Name weder `src` noch `tag` ist, in seiner
/// Reihenfolge; darin steht das HTML des nächsten Markdown-Inhalts, dann
/// schließt der Tag. Der Inhalt ist damit verbraucht.
pub proof fn gesetz_md_behaelt_attribute(
    inhalte: Seq<Seq<char>>,
    z: MdZustand,
    e: XmlEreignisV,
    attrs: Seq<(Seq<u8>, Seq<u8>)>,
    tag: Seq<u8>,
    html: Seq<u8>,
)
    requires
        ist_start(e, "md".spec_bytes()),
        tag_attribute(e) == als_lesungen(attrs),
        attributtext(e, "src".spec_bytes()) is Ok,
        attributtext(e, "src".spec_bytes()) != Ok::<Option<Seq<u8>>, ()>(None),
        attributwert(e, "multilingual".spec_bytes()) is Ok,
        z.verbraucht < inhalte.len(),
        attributtext(e, "tag".spec_bytes()) == Ok::<Option<Seq<u8>>, ()>(Some(tag)),
        alle_bytes(xml_lesungen(html_oder_leer(inhalte[z.verbraucht as int]), false)) == Ok::<Seq<u8>, FehlerArt>(html),
    ensures
        md_schritt(inhalte, z, Some(e)) == Ok::<MdZustand, FehlerArt>(MdZustand {
            ausgabe: z.ausgabe + seq![60u8] + tag
                + attribute_bytes(ohne_zwei(attrs, "src".spec_bytes(), "tag".spec_bytes())) + seq![62u8]
                + html + seq![60u8, 47u8] + tag + seq![62u8],
            in_md: true,
            verbraucht: z.verbraucht + 1,
        }),
{
    lemma_ohne_zwei(attrs, "src".spec_bytes(), "tag".spec_bytes());
    let r = md_schritt(inhalte, z, Some(e)).unwrap();
    assert(r.ausgabe =~= z.ausgabe + seq![60u8] + tag
        + attribute_bytes(ohne_zwei(attrs, "src".spec_bytes(), "tag".spec_bytes())) + seq![62u8]
        + html + seq![60u8, 47u8] + tag + seq![62u8]);
}

/// Die Datensätze einer Antwort: die einer Abfrage, bei einer Zeilenvorlage
/// keine.
pub open spec fn antwort_reihen(a: SqlAntwortV) -> Seq<Seq<(Seq<char>, Seq<char>)>> {
    match a {
        SqlAntwortV::Reihen(rs) => rs,
        SqlAntwortV::Text(_) => Seq::empty(),
    }
}

/// Die Datensätze aller Abfragen unter den ersten `n` Antworten,
/// hintereinander in ihrer Reihenfolge.
pub open spec fn gelesene_reihen(antworten: Seq<SqlAntwortV>, n: int) -> Seq<Seq<(Seq<char>, Seq<char>)>> {
    antworten.take(n).map_values(|a: SqlAntwortV| antwort_reihen(a)).flatten()
}

proof fn lemma_gelesen_weiter(antworten: Seq<SqlAntwortV>, n: int)
    requires
        0 <= n < antworten.len(),
    ensures
        gelesene_reihen(antworten, n + 1) == gelesene_reihen(antworten, n) + antwort_reihen(antworten[n]),
{
    let f = |a: SqlAntwortV| antwort_reihen(a);
    assert(antworten.take(n + 1).map_values(f) =~= antworten.take(n).map_values(f).push(f(antworten[n])));
    antworten.take(n).map_values(f).lemma_flatten_push(f(antworten[n]));
}

/// Was die `<row>`-Tags an Datensätzen vorfinden, sind die aller bis dahin
/// gelesenen Abfragen, hintereinander in ihrer Reihenfolge: ein neues
/// `<sql>` hängt seine Datensätze an, keiner geht verloren.
pub proof fn gesetz_sql_reihen_sammeln(antworten: Seq<SqlAntwortV>, s: Seq<Option<XmlEreignisV>>)
    ensures
        sql_lauf(antworten, s) matches Ok(z) ==> z.verbraucht <= antworten.len()
            && z.reihen == gelesene_reihen(antworten, z.verbraucht as int),
    decreases s.len(),
{
    if s.len() == 0 {
        assert(antworten.take(0).map_values(|a: SqlAntwortV| antwort_reihen(a)) =~= Seq::<Seq<Seq<(Seq<char>, Seq<char>)>>>::empty());
        assert(gelesene_reihen(antworten, 0) =~= Seq::<Seq<(Seq<char>, Seq<char>)>>::empty());
    } else {
        gesetz_sql_reihen_sammeln(antworten, s.drop_last());
        if let Ok(z) = sql_lauf(antworten, s.drop_last()) {
            if z.verbraucht < antworten.len() {
                lemma_gelesen_weiter(antworten, z.verbraucht as int);
                assert(z.reihen + Seq::<Seq<(Seq<char>, Seq<char>)>>::empty() =~= z.reihen);
            }
        }
    }
}

/// Wer später liest, findet die Datensätze von vorher wieder, in derselben
/// Reihenfolge, am Anfang.
pub proof fn gesetz_sql_reihen_bleiben(antworten: Seq<SqlAntwortV>, s: Seq<Option<XmlEreignisV>>, i: int)
    requires
        0 <= i <= s.len(),
        sql_lauf(antworten, s.take(i)) is Ok,
        sql_lauf(antworten, s) is Ok,
    ensures
        sql_lauf(antworten, s.take(i)).unwrap().reihen.len() <= sql_lauf(antworten, s).unwrap().reihen.len(),
        sql_lauf(antworten, s).unwrap().reihen.subrange(0, sql_lauf(antworten, s.take(i)).unwrap().reihen.len() as int)
            == sql_lauf(antworten, s.take(i)).unwrap().reihen,
    decreases s.len() - i,
{
    if i == s.len() {
        assert(s.take(i) =~= s);
        let r = sql_lauf(antworten, s).unwrap().reihen;
        assert(r.subrange(0, r.len() as int) =~= r);
    } else {
        assert(s.take(i + 1).drop_last() =~= s.take(i));
        lemma_sql_ok_vorn(antworten, s, i + 1);
        gesetz_sql_reihen_bleiben(antworten, s, i + 1);
        let a = sql_lauf(antworten, s.take(i)).unwrap();
        let b = sql_lauf(antworten, s.take(i + 1)).unwrap();
        let c = sql_lauf(antworten, s).unwrap();
        gesetz_sql_reihen_sammeln(antworten, s.take(i));
        gesetz_sql_reihen_sammeln(antworten, s.take(i + 1));
        assert(s.take(i + 1).last() == s[i]);
        assert(b.verbraucht == a.verbraucht || b.verbraucht == a.verbraucht + 1);
        let rest = if b.verbraucht > a.verbraucht {
            lemma_gelesen_weiter(antworten, a.verbraucht as int);
            antwort_reihen(antworten[a.verbraucht as int])
        } else {
            Seq::empty()
        };
        assert(b.reihen =~= a.reihen + rest);
        assert(a.reihen.len() <= b.reihen.len() <= c.reihen.len());
        assert(b.reihen.subrange(0, a.reihen.len() as int) =~= a.reihen);
        assert(c.reihen.subrange(0, a.reihen.len() as int) =~= b.reihen.subrange(0, a.reihen.len() as int));
    }
}

proof fn lemma_sql_ok_vorn(antworten: Seq<SqlAntwortV>, s: Seq<Option<XmlEreignisV>>, n: int)
    requires
        0 <= n <= s.len(),
        sql_lauf(antworten, s) is Ok,
    ensures
        sql_lauf(antworten, s.take(n)) is Ok,
    decreases s.len() - n,
{
    if n < s.len() {
        assert(s.take(n + 1).drop_last() =~= s.take(n));
        lemma_sql_ok_vorn(antworten, s, n + 1);
    } else {
        assert(s.take(n) =~= s);
    }
}

proof fn lemma_ohne_zeichen_an(s: Seq<char>, c: char, j: int)
    requires
        !s.contains(c),
        0 <= j < s.len(),
    ensures
        s[j] != c,
{
}

/// Mit einer Sprache `l` wird aus dem Dateinamen `s.e` (die Endung `e` ohne
/// `.`) der Name `s.l.e`: alles vor dem letzten Punkt bleibt, auch weitere
/// Punkte im Stamm, und das Verzeichnis `d` davor bleibt.
pub proof fn gesetz_sprache_vor_der_endung(d: Seq<char>, s: Seq<char>, e: Seq<char>, l: Seq<char>)
    requires
        d.len() == 0 || d.last() == '/',
        s.len() > 0,
        e.len() > 0,
        !s.contains('/'),
        !e.contains('/'),
        !e.contains('.'),
    ensures
        mit_sprache(d + s + seq!['.'] + e, Some(l)) == d + s + seq!['.'] + l + seq!['.'] + e,
{
    let n = s + seq!['.'] + e;
    let p = d + n;
    assert(d + s + seq!['.'] + e =~= p);
    let a = d.len() as int;
    assert forall|j: int| a <= j < p.len() implies p[j] != '/' by {
        assert(p[j] == n[j - a]);
        if j - a < s.len() {
            assert(n[j - a] == s[j - a]);
            lemma_ohne_zeichen_an(s, '/', j - a);
        } else if j - a > s.len() {
            assert(n[j - a] == e[j - a - s.len() - 1]);
            lemma_ohne_zeichen_an(e, '/', j - a - s.len() - 1);
        }
    }
    if a > 0 {
        assert(p[a - 1] == d.last());
    }
    lemma_letztes_eindeutig(p, '/', a - 1);
    assert(p.subrange(a, p.len() as int) =~= n);
    assert(n.len() >= 3);
    assert(n != seq!['.']) by {
        assert(n.len() != seq!['.'].len());
    }
    if a == 0 {
        assert(p =~= n);
    }
    assert(letzter_teil(p) == Some((a, p.len() as int)));
    assert(n != seq!['.', '.']) by {
        if n.len() == 2 {
            assert(false);
        }
    }
    assert(dateiname_bereich(p) == Some((a, p.len() as int)));
    let k = s.len() as int;
    assert forall|j: int| k < j < n.len() implies n[j] != '.' by {
        assert(n[j] == e[j - k - 1]);
        lemma_ohne_zeichen_an(e, '.', j - k - 1);
    }
    assert(n[k] == '.');
    lemma_letztes_eindeutig(n, '.', k);
    assert(n.subrange(k + 1, n.len() as int) =~= e);
    assert(endung(p) == Some(e));
    assert(p.subrange(0, a + k) =~= d + s);
    assert(d + s + seq!['.'] + (l + seq!['.'] + e) =~= d + s + seq!['.'] + l + seq!['.'] + e);
}

/// Ein Dateiname ohne Punkt hat keine Endung: mit jeder Sprache bleibt der
/// Pfad, wie er ist. Ebenso ein Name, der mit seinem einzigen Punkt beginnt.
pub proof fn gesetz_ohne_endung_bleibt(d: Seq<char>, s: Seq<char>, punkt: bool, l: Seq<char>)
    requires
        d.len() == 0 || d.last() == '/',
        s.len() > 0,
        !s.contains('/'),
        !s.contains('.'),
    ensures
        mit_sprache(d + (if punkt { seq!['.'] } else { Seq::empty() }) + s, Some(l))
            == d + (if punkt { seq!['.'] } else { Seq::empty() }) + s,
{
    let v: Seq<char> = if punkt { seq!['.'] } else { Seq::empty() };
    let n = v + s;
    let p = d + n;
    assert(d + v + s =~= p);
    let a = d.len() as int;
    assert forall|j: int| a <= j < p.len() implies p[j] != '/' && (j > a || !punkt ==> p[j] != '.') by {
        assert(p[j] == n[j - a]);
        if j - a >= v.len() {
            assert(n[j - a] == s[j - a - v.len()]);
            lemma_ohne_zeichen_an(s, '/', j - a - v.len());
            lemma_ohne_zeichen_an(s, '.', j - a - v.len());
        }
    }
    if a > 0 {
        assert(p[a - 1] == d.last());
    }
    lemma_letztes_eindeutig(p, '/', a - 1);
    assert(p.subrange(a, p.len() as int) =~= n);
    if a == 0 {
        assert(p =~= n);
    }
    if n == seq!['.'] {
        assert(n.len() == 1);
        assert(s.len() == 0);
    }
    if n == seq!['.', '.'] {
        assert(n[n.len() - 1] == '.');
        lemma_ohne_zeichen_an(s, '.', s.len() - 1);
        assert(n[n.len() - 1] == s[s.len() - 1]);
    }
    assert(dateiname_bereich(p) == Some((a, p.len() as int)));
    assert forall|j: int| 0 < j < n.len() implies n[j] != '.' by {
        assert(p[a + j] == n[j]);
    }
    if punkt {
        assert(n[0] == '.');
        lemma_letztes_eindeutig(n, '.', 0);
    } else {
        assert forall|j: int| 0 <= j < n.len() implies n[j] != '.' by {
            assert(n[j] == s[j]);
            lemma_ohne_zeichen_an(s, '.', j);
        }
        lemma_letztes_eindeutig(n, '.', -1);
    }
    assert(endung(p) is None);
}

} // verus!
