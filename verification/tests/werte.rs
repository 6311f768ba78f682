use veha::beide::{aktualisieren, Record, XmlData};
use veha::ereignis::{Art, XmlEreignis};
use veha::fehler::VehaFehler;
use veha::leser::lesungen;
use veha::press::verteilen_nach_tag;
use veha::sqlite::sqlite_anfrage_finden;
use veha::utils::{attribut_vorhanden, attributenwert_lesen, find_xml_tags};
use veha::werte::{dezimal_text, hex_text, row_to_hashmap, wert_als_text, SqlWert};

#[test]
fn ganzzahlen_dezimal() {
    assert_eq!(dezimal_text(0), "0");
    assert_eq!(dezimal_text(7), "7");
    assert_eq!(dezimal_text(-12), "-12");
    assert_eq!(dezimal_text(1234567890), "1234567890");
    assert_eq!(dezimal_text(i64::MIN), "-9223372036854775808");
    assert_eq!(dezimal_text(i64::MAX), "9223372036854775807");
}

#[test]
fn bytes_hexadezimal() {
    assert_eq!(hex_text(&[0x0f, 0xa0, 0x00]), "0fa000");
    assert_eq!(hex_text(&[]), "");
}

#[test]
fn werte_als_text() {
    assert_eq!(wert_als_text(&SqlWert::Null), "null");
    assert_eq!(wert_als_text(&SqlWert::Ganzzahl(-3)), "-3");
    assert_eq!(wert_als_text(&SqlWert::Gleitkomma(1.5f64.to_string())), "1.5");
    assert_eq!(wert_als_text(&SqlWert::Text(b"foo".to_vec())), "foo");
    assert_eq!(wert_als_text(&SqlWert::Text(vec![0x66, 0xff])), "f\u{FFFD}");
    assert_eq!(wert_als_text(&SqlWert::Blob(vec![1, 255])), "01ff");
}

#[test]
fn zeile_zu_datensatz() {
    let spalten = vec!["a".to_string(), "b".to_string()];
    assert!(row_to_hashmap(&spalten, &vec![SqlWert::Ganzzahl(1)]).is_none());
    let d = row_to_hashmap(&spalten, &vec![SqlWert::Ganzzahl(1), SqlWert::Null, SqlWert::Null]).unwrap();
    assert_eq!(d.felder, vec![("a".to_string(), "1".to_string()), ("b".to_string(), "null".to_string())]);
    assert_eq!(d.get("a"), Some(&"1".to_string()));
    assert_eq!(d.get("c"), None);
}

#[test]
fn nur_kennung_eins_wird_geaendert() {
    let mut data = XmlData {
        records: vec![
            Record { id: "1".to_string(), value: "alt".to_string() },
            Record { id: "2".to_string(), value: "bleibt".to_string() },
            Record { id: "11".to_string(), value: "auch".to_string() },
        ],
    };
    aktualisieren(&mut data);
    assert_eq!(data.records[0].id, "1");
    assert_eq!(data.records[0].value, "UpdatedValue");
    assert_eq!(data.records[1].value, "bleibt");
    assert_eq!(data.records[2].value, "auch");
    aktualisieren(&mut data);
    assert_eq!(data.records[0].value, "UpdatedValue");
    assert_eq!(data.records.len(), 3);
}

#[test]
fn start_tags_finden() {
    let tags = find_xml_tags("<a><b x=\"1\"/><b y=\"2\"></b><c/></a>".to_string(), "b");
    assert_eq!(tags.len(), 1);
    assert_eq!(tags[0].art, Art::Start);
    assert_eq!(tags[0].inhalt, b"b y=\"2\"".to_vec());
}

#[test]
fn attribute_lesen() {
    let e = XmlEreignis { art: Art::Start, inhalt: b"row src=\"zeile.xhtml\" x:tag=\"li\"".to_vec() };
    assert_eq!(attributenwert_lesen(&e, "src").unwrap(), Some("zeile.xhtml".to_string()));
    assert_eq!(attributenwert_lesen(&e, "tag").unwrap(), Some("li".to_string()));
    assert_eq!(attributenwert_lesen(&e, "fehlt").unwrap(), None);
    assert!(attribut_vorhanden(&e, "src").unwrap());
    assert!(!attribut_vorhanden(&e, "class").unwrap());
    let kaputt = XmlEreignis { art: Art::Start, inhalt: b"row src=kaputt tag=\"li\"".to_vec() };
    assert!(attributenwert_lesen(&kaputt, "tag").is_err());
}

#[test]
fn presse_zerlegt_das_dokument() {
    let (aussen, innen) =
        verteilen_nach_tag("<html><backend><sqlite/></backend><p>x</p></html>", "backend").unwrap();
    assert_eq!(String::from_utf8(aussen).unwrap(), "<html><p>x</p></html>");
    assert_eq!(String::from_utf8(innen).unwrap(), "<sqlite/>");
}

#[test]
fn presse_vor_und_nach_dem_tag() {
    let (aussen, innen) =
        verteilen_nach_tag("<a>v<!--k--><x:backend>i<c/>j</x:backend>n</a>", "backend").unwrap();
    assert_eq!(String::from_utf8(aussen).unwrap(), "<a>v<!--k-->n</a>");
    assert_eq!(String::from_utf8(innen).unwrap(), "i<c/>j");
}

#[test]
fn presse_ohne_tag() {
    let (aussen, innen) = verteilen_nach_tag("<p>x</p>", "backend").unwrap();
    assert_eq!(String::from_utf8(aussen).unwrap(), "<p>x</p>");
    assert!(innen.is_empty());
}

#[test]
fn presse_zweimal_derselbe_tag() {
    let r = verteilen_nach_tag("<a><backend></backend><backend></backend></a>", "backend");
    assert!(matches!(r, Err(VehaFehler::MehrfachTag(_))));
}

#[test]
fn sqlite_anfrage_im_backend() {
    let a = sqlite_anfrage_finden(
        b"<backend><sqlite backend=\"\" src=\"db.sqlite\" table=\"buch\">SELECT * FROM buch WHERE a &lt; 3</sqlite></backend>",
        "vorlagen",
    )
    .unwrap();
    assert_eq!(a.src, "vorlagen/db.sqlite");
    assert_eq!(a.tabelle, "buch");
    assert_eq!(a.abfrage, "SELECT * FROM buch WHERE a < 3");
}

#[test]
fn sqlite_ohne_tag() {
    assert!(matches!(sqlite_anfrage_finden(b"<a></a>", "v"), Err(VehaFehler::KeinSqliteTag)));
    assert!(matches!(sqlite_anfrage_finden(b"<sqlite src=\"x\">q</sqlite>", "v"), Err(VehaFehler::KeinSqliteTag)));
    assert!(matches!(sqlite_anfrage_finden(&[0xff, 0xfe], "v"), Err(VehaFehler::KeinUtf8)));
}

#[test]
fn leser_liefert_ereignisse() {
    let ls = lesungen("<a k=\"v\">x</a>", false);
    assert_eq!(ls.len(), 3);
    let e0 = ls[0].as_ref().unwrap();
    assert_eq!(e0.art, Art::Start);
    assert_eq!(e0.inhalt, b"a k=\"v\"".to_vec());
    let e1 = ls[1].as_ref().unwrap();
    assert_eq!(e1.art, Art::Text);
    assert_eq!(e1.inhalt, b"x".to_vec());
    let e2 = ls[2].as_ref().unwrap();
    assert_eq!(e2.art, Art::Ende);
    assert_eq!(e2.inhalt, b"a".to_vec());
}

#[test]
fn lesefehler_tragen_die_meldung_des_lesers() {
    let eingabe = "<a><b></a>";
    let mut leser = quick_xml::Reader::from_str(eingabe);
    let erwartet = loop {
        match leser.read_event() {
            Err(e) => break e.to_string(),
            Ok(quick_xml::events::Event::Eof) => panic!("Lesefehler erwartet"),
            Ok(_) => {},
        }
    };
    match verteilen_nach_tag(eingabe, "backend") {
        Err(f) => {
            assert!(matches!(f, VehaFehler::Xml(_)));
            assert_eq!(f.meldung(), erwartet);
            assert!(!erwartet.is_empty());
        },
        Ok(_) => panic!("Lesefehler erwartet"),
    }
}

#[test]
fn sqlite_unbekannte_entitaet_ist_ein_lesefehler_mit_meldung() {
    let r = sqlite_anfrage_finden(
        b"<backend><sqlite backend=\"\" src=\"db.sqlite\" table=\"t\">SELECT &unbekannt;</sqlite></backend>",
        "v",
    );
    match r {
        Err(f) => {
            assert!(matches!(f, VehaFehler::Xml(_)));
            assert!(!f.meldung().is_empty());
        },
        Ok(_) => panic!("Fehler erwartet"),
    }
}
