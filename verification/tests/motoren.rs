use veha::csvpilot;
use veha::fehler::VehaFehler;
use veha::mdmotor;
use veha::qwen;
use veha::sql::{binden, reihe_einfuellen, sql_anfragen, SqlAnfrage, SqlAntwort};
use veha::tabular::{werte_ersetzen, Datensatz};
use veha::teramotor::{process_via_tera, tera_tag_sammeln};
use veha::tomlmotor::{motor, toml_tags_sammeln};

fn datensatz(felder: &[(&str, &str)]) -> Datensatz {
    Datensatz { felder: felder.iter().map(|(k, w)| (k.to_string(), w.to_string())).collect() }
}

fn text(b: Vec<u8>) -> String {
    String::from_utf8(b).unwrap()
}

const TOML_INHALT: &str = r#"
title = "Dynamic Title"
description = "This content comes from TOML!"
        "#;

#[test]
fn test_no_toml_tag() {
    let xhtml_input = r#"
<!DOCTYPE html>
<html xmlns="http://www.w3.org/1999/xhtml">
<head>
    <title>Test Document</title>
</head>
<body>
	<h1>Hello Wolrd!</h1>
</body>
</html>
        "#;
    let sammlung = toml_tags_sammeln(xhtml_input, "test_data", None).unwrap();
    assert!(sammlung.kontexte.is_empty());
    let result_empty = motor(sammlung.text, Vec::new()).unwrap();
    assert!(result_empty.contains("<h1>Hello Wolrd!</h1>"));
}

#[test]
fn toml_test_process_via_tera() {
    let xhtml_input = r#"
<!DOCTYPE html>
<html xmlns="http://www.w3.org/1999/xhtml">
<head>
    <title>Test Document</title>
    <toml src="test_config.toml" name="conf"></toml>
</head>
<body>
    <h1>{{ conf.title }}</h1>
    <p>{{ conf.description }}</p>
</body>
</html>
        "#;
    let sammlung = toml_tags_sammeln(xhtml_input, "test_data_2", None).unwrap();
    assert_eq!(
        sammlung.kontexte,
        vec![(Some("conf".to_string()), "test_data_2/test_config.toml".to_string())]
    );
    let konfigurationen: Vec<(Option<String>, String)> = sammlung
        .kontexte
        .iter()
        .map(|(name, _)| (name.clone(), TOML_INHALT.to_string()))
        .collect();
    let result = motor(sammlung.text, konfigurationen).unwrap();
    assert!(result.contains("<h1>Dynamic Title</h1>"));
    assert!(result.contains("<p>This content comes from TOML!</p>"));
    assert!(!result.contains("<toml"));
}

#[test]
fn teramotor_test_process_via_tera() {
    let xhtml_input = r#"
<!DOCTYPE html>
<html xmlns="http://www.w3.org/1999/xhtml">
<head>
    <title>Test Document</title>
    <tera src="test_config.toml" name="conf"></tera>
</head>
<body>
    <h1>{{ conf.title }}</h1>
    <p>{{ conf.description }}</p>
</body>
</html>
        "#;
    let sammlung = tera_tag_sammeln(xhtml_input, "test_data").unwrap();
    let (name, pfad) = sammlung.konfig.clone().unwrap();
    assert_eq!(name, Some("conf".to_string()));
    assert_eq!(pfad, "test_data/test_config.toml");
    let result = process_via_tera(sammlung.text, Some((name, TOML_INHALT.to_string()))).unwrap();
    assert!(result.contains("<h1>Dynamic Title</h1>"));
    assert!(result.contains("<p>This content comes from TOML!</p>"));
    assert!(!result.contains("<tera"));
}

#[test]
fn toml_mehrere_tags_und_mehrsprachig() {
    let eingabe = "<a><toml src=\"eins.toml\" name=\"e\"></toml><toml src=\"zwei.toml\" multilingual=\"\"></toml><p>{{ e.x }}</p></a>";
    let lang = "fr".to_string();
    let sammlung = toml_tags_sammeln(eingabe, "konf", Some(&lang)).unwrap();
    assert_eq!(
        sammlung.kontexte,
        vec![
            (Some("e".to_string()), "konf/eins.toml".to_string()),
            (None, "konf/zwei.fr.toml".to_string())
        ]
    );
    assert_eq!(sammlung.text, "<a><p>{{ e.x }}</p></a>");
    let r = motor(
        sammlung.text,
        vec![(Some("e".to_string()), "x = 5".to_string()), (None, "y = 1".to_string())],
    )
    .unwrap();
    assert_eq!(r, "<a><p>5</p></a>");
}

#[test]
fn toml_ohne_tag_bleibt_das_dokument() {
    let eingabe = "<a b=\"1\"><!-- k --><p>x &amp; y</p></a>";
    let sammlung = toml_tags_sammeln(eingabe, "d", None).unwrap();
    assert_eq!(sammlung.text, eingabe);
    assert_eq!(motor(sammlung.text, Vec::new()).unwrap(), eingabe);
}

#[test]
fn toml_ohne_src_ist_ein_fehler() {
    let r = toml_tags_sammeln("<a><toml name=\"x\"></toml></a>", "d", None);
    assert!(matches!(r, Err(VehaFehler::KeinSrc(_))));
}

#[test]
fn toml_ungueltig_ist_ein_fehler() {
    let r = motor("<p></p>".to_string(), vec![(None, "a = = b".to_string())]);
    assert!(matches!(r, Err(VehaFehler::Toml(_))));
}

#[test]
fn tera_ohne_tag_bleibt_das_dokument() {
    let sammlung = tera_tag_sammeln("<p>hi</p>", "d").unwrap();
    assert!(sammlung.konfig.is_none());
    assert_eq!(sammlung.text, "<p>hi</p>");
    assert_eq!(process_via_tera(sammlung.text, None).unwrap(), "<p>hi</p>");
}

#[test]
fn tera_ohne_name_heisst_config() {
    let r = process_via_tera("<p>{{ config.a }}</p>".to_string(), Some((None, "a = 3".to_string()))).unwrap();
    assert_eq!(r, "<p>3</p>");
}

#[test]
fn tera_der_letzte_tag_gilt() {
    let s = tera_tag_sammeln("<tera src=\"a.toml\"></tera><tera src=\"b.toml\" name=\"n\"></tera><p/>", "d").unwrap();
    assert_eq!(s.konfig, Some((Some("n".to_string()), "d/b.toml".to_string())));
    assert_eq!(s.text, "<p/>");
}

#[test]
fn tera_fehler_in_der_vorlage() {
    let r = process_via_tera("{{ offen".to_string(), Some((None, "a = 1".to_string())));
    assert!(matches!(r, Err(VehaFehler::Tera(_))));
    let r = process_via_tera("<p/>".to_string(), Some((None, "a = = 1".to_string())));
    assert!(matches!(r, Err(VehaFehler::Toml(_))));
}

#[test]
fn spalte_als_text() {
    let eingabe = "<div class=\"row\"><column tag=\"div\" class=\"header\" content=\"title\"></column></div>".to_string();
    let r = werte_ersetzen(eingabe, datensatz(&[("title", "Discorsi")])).unwrap();
    assert_eq!(text(r), "<div class=\"row\"><div class=\"header\">Discorsi</div></div>");
}

#[test]
fn spalte_als_attribut_und_verschachtelt() {
    let eingabe = "<column tag=\"a\" class=\"title\" content=\"link\" attribute=\"href\"><column tag=\"b\" content=\"acronym\"></column></column>".to_string();
    let r = werte_ersetzen(eingabe, datensatz(&[("link", "https://x.org"), ("acronym", "CSV")])).unwrap();
    assert_eq!(text(r), "<a class=\"title\" href=\"https://x.org\"><b>CSV</b></a>");
}

#[test]
fn spalte_wird_maskiert_und_letzter_wert_gilt() {
    let eingabe = "<column tag=\"p\" content=\"t\"></column>".to_string();
    let r = werte_ersetzen(eingabe, datensatz(&[("t", "alt"), ("t", "a<b & \"c\"")])).unwrap();
    assert_eq!(text(r), "<p>a&lt;b &amp; &quot;c&quot;</p>");
}

#[test]
fn fehlende_spalte_ist_leer() {
    let r = werte_ersetzen("<column tag=\"p\" content=\"x\"></column>".to_string(), datensatz(&[])).unwrap();
    assert_eq!(text(r), "<p></p>");
}

#[test]
fn spalte_ohne_content_schliesst_nichts() {
    let r = werte_ersetzen("<column tag=\"p\"></column>".to_string(), datensatz(&[]));
    assert!(matches!(r, Err(VehaFehler::KeineOffeneSpalte)));
}

#[test]
fn unlesbares_attribut_ist_ein_fehler() {
    let r = werte_ersetzen("<column content=title tag=\"p\"></column>".to_string(), datensatz(&[]));
    assert!(matches!(r, Err(VehaFehler::Attribut)));
}

#[test]
fn falsches_ende_ist_ein_lesefehler() {
    let r = werte_ersetzen("<a></b>".to_string(), datensatz(&[]));
    assert!(matches!(r, Err(VehaFehler::Xml(_))));
}

#[test]
fn csv_probe_fuellt_den_probedatensatz() {
    let eingabe = "<div><column tag=\"h1\" content=\"title\" class=\"gross\"></column><column tag=\"i\" content=\"author\"></column><column tag=\"i\" content=\"x\"></column></div>".to_string();
    let r = csvpilot::werte_ersetzen(eingabe).unwrap();
    assert_eq!(
        text(r),
        "<div><h1 content=\"title\">discorsi</h1><i content=\"author\">Machiavelli</i><i content=\"x\"></i></div>"
    );
}

#[test]
fn md_dateien_und_ersetzen() {
    let eingabe = "<main><md src=\"post.md\" tag=\"div\" class=\"md text\"></md><md src=\"b.md\" multilingual=\"\"></md></main>";
    let lang = "fr".to_string();
    assert_eq!(
        mdmotor::md_dateien(eingabe, "vorlagen", Some(&lang)),
        vec!["vorlagen/post.md".to_string(), "vorlagen/b.fr.md".to_string()]
    );
    assert_eq!(
        mdmotor::md_dateien(eingabe, "vorlagen", None),
        vec!["vorlagen/post.md".to_string(), "vorlagen/b.md".to_string()]
    );
    let r = mdmotor::werte_ersetzen(eingabe.to_string(), vec!["# Hallo".to_string(), "egal".to_string()]).unwrap();
    assert_eq!(text(r), "<main><div class=\"md text\"><h1>Hallo</h1></div></main>");
}

#[test]
fn md_ohne_inhalt_fehlt_eine_antwort() {
    let r = mdmotor::werte_ersetzen("<md src=\"a.md\" tag=\"p\"></md>".to_string(), Vec::new());
    assert!(matches!(r, Err(VehaFehler::FehlendeAntwort)));
}

#[test]
fn vorlage_mit_slot() {
    let eingabe = "<vorlage src=\"rahmen.xhtml\"><p>Inhalt</p></vorlage>";
    assert_eq!(qwen::vorlagen_namen(eingabe), vec!["rahmen.xhtml".to_string()]);
    let r = qwen::transform(
        eingabe.to_string(),
        vec![Some("<html><body><slot></slot></body></html>".to_string())],
    )
    .unwrap();
    assert_eq!(text(r), "<html><body><p>Inhalt</p></body></html>");
}

#[test]
fn vorlage_fehlt() {
    let r = qwen::transform("<vorlage src=\"r\"><p/></vorlage>".to_string(), vec![None]).unwrap();
    assert!(r.is_empty());
}

#[test]
fn vorlage_ohne_ende() {
    let r = qwen::transform("<vorlage src=\"r\"><p>x</p>".to_string(), vec![Some("<slot></slot>".to_string())]);
    assert!(matches!(r, Err(VehaFehler::VorzeitigesEnde)));
}

#[test]
fn sql_anfragen_und_binden() {
    let eingabe = "<main><sql src=\"q.sql\" ref=\"db.sqlite\" table=\"buch\"><h2>Liste</h2><row src=\"row.xhtml\" tag=\"ul\" class=\"liste\"></row></sql><row src=\"x\" tag=\"y\"></row></main>";
    let anfragen = sql_anfragen(eingabe, "v");
    assert_eq!(anfragen.len(), 2);
    match &anfragen[0] {
        SqlAnfrage::Abfrage { sql_datei, datenbank, tabelle } => {
            assert_eq!(sql_datei, "v/q.sql");
            assert_eq!(datenbank, "v/db.sqlite");
            assert_eq!(tabelle, "buch");
        }
        _ => panic!("Abfrage erwartet"),
    }
    match &anfragen[1] {
        SqlAnfrage::Zeile { datei } => assert_eq!(datei, "v/row.xhtml"),
        _ => panic!("Zeile erwartet"),
    }
    let antworten = vec![
        SqlAntwort::Reihen(vec![datensatz(&[("title", "A")]), datensatz(&[("title", "B")])]),
        SqlAntwort::Text("<li><column tag=\"b\" content=\"title\"></column></li>".to_string()),
    ];
    let r = binden(eingabe.to_string(), antworten).unwrap();
    assert_eq!(
        text(r),
        "<main><h2>Liste</h2><ul class=\"liste\"><li><b>A</b></li><li><b>B</b></li></ul><row src=\"x\" tag=\"y\"></row></main>"
    );
}

#[test]
fn sql_ohne_antwort() {
    let r = binden("<sql src=\"a\" ref=\"b\" table=\"c\"></sql>".to_string(), Vec::new());
    assert!(matches!(r, Err(VehaFehler::FehlendeAntwort)));
}

#[test]
fn sql_ohne_tag_bleibt() {
    let eingabe = "<p><row src=\"a\" tag=\"b\"></row></p>";
    assert!(sql_anfragen(eingabe, "v").is_empty());
    assert_eq!(text(binden(eingabe.to_string(), Vec::new()).unwrap()), eingabe);
}

#[test]
fn reihen_einfuellen_haengt_an() {
    let r = reihe_einfuellen(
        vec![datensatz(&[("n", "1")]), datensatz(&[("n", "2")]), datensatz(&[])],
        "<i><column tag=\"b\" content=\"n\"></column></i>".to_string(),
    )
    .unwrap();
    assert_eq!(text(r), "<i><b>1</b></i><i><b>2</b></i><i><b></b></i>");
}

#[test]
fn toml_pfad_wird_entmaskiert() {
    let s = toml_tags_sammeln("<toml src=\"a&amp;b.toml\"></toml>", "d", None).unwrap();
    assert_eq!(s.kontexte, vec![(None, "d/a&b.toml".to_string())]);
}

#[test]
fn spalten_ohne_column_bleibt_das_dokument() {
    let eingabe = "<a b=\"1\"><?pi x?><p>x &amp; y</p><br/></a>";
    let r = werte_ersetzen(eingabe.to_string(), datensatz(&[("b", "2")])).unwrap();
    assert_eq!(text(r), eingabe);
}

#[test]
fn md_ohne_md_bleibt_das_dokument() {
    let eingabe = "<a><p>x</p></a>";
    assert!(mdmotor::md_dateien(eingabe, "v", None).is_empty());
    assert_eq!(text(mdmotor::werte_ersetzen(eingabe.to_string(), Vec::new()).unwrap()), eingabe);
}

#[test]
fn reihen_verketten_sich() {
    let vorlage = "<i><column tag=\"b\" content=\"n\"></column></i>";
    let a = || vec![datensatz(&[("n", "1")])];
    let b = || vec![datensatz(&[("n", "2")]), datensatz(&[("n", "3")])];
    let mut ab = a();
    ab.extend(b());
    let gesamt = reihe_einfuellen(ab, vorlage.to_string()).unwrap();
    let mut einzeln = reihe_einfuellen(a(), vorlage.to_string()).unwrap();
    einzeln.extend(reihe_einfuellen(b(), vorlage.to_string()).unwrap());
    assert_eq!(gesamt, einzeln);
    assert!(reihe_einfuellen(Vec::new(), vorlage.to_string()).unwrap().is_empty());
}

#[test]
fn eingefuellter_text_erzeugt_kein_markup() {
    let r = werte_ersetzen(
        "<column tag=\"p\" content=\"t\"></column>".to_string(),
        datensatz(&[("t", "<script>'x'</script>")]),
    )
    .unwrap();
    assert_eq!(text(r), "<p>&lt;script&gt;&apos;x&apos;&lt;/script&gt;</p>");
}

#[test]
fn toml_jeder_name_mit_seiner_datei() {
    let eingabe = r#"<toml src="a.toml" name="a"></toml><toml src="b.toml" name="b"></toml><p>{{ a.x }}{{ b.y }}</p>"#;
    let sammlung = toml_tags_sammeln(eingabe, "d", None).unwrap();
    assert_eq!(
        sammlung.kontexte,
        vec![(Some("a".to_string()), "d/a.toml".to_string()), (Some("b".to_string()), "d/b.toml".to_string())]
    );
    let r = motor(
        sammlung.text,
        vec![(Some("a".to_string()), "x = \"1\"".to_string()), (Some("b".to_string()), "y = \"2\"".to_string())],
    )
    .unwrap();
    assert_eq!(r, "<p>12</p>");
}

#[test]
fn toml_ohne_name_heisst_config() {
    let eingabe = r#"<toml src="c.toml"></toml><h1>{{ config.title }}</h1>"#;
    let sammlung = toml_tags_sammeln(eingabe, "d", None).unwrap();
    assert_eq!(sammlung.kontexte, vec![(None, "d/c.toml".to_string())]);
    let r = motor(sammlung.text, vec![(None, "title = \"T\"".to_string())]).unwrap();
    assert_eq!(r, "<h1>T</h1>");
}

#[test]
fn template_tag_mit_slot() {
    let eingabe = r#"<template src="t.xhtml"><p>x</p></template>"#;
    assert_eq!(qwen::vorlagen_namen(eingabe), vec!["t.xhtml".to_string()]);
    let r = qwen::transform(
        eingabe.to_string(),
        vec![Some("<html><body><slot></slot></body></html>".to_string())],
    )
    .unwrap();
    assert_eq!(r, b"<html><body><p>x</p></body></html>".to_vec());
}

#[test]
fn tera_unbekannte_variable_ist_ein_fehler() {
    let r = process_via_tera("<p>{{ konfig.a }}</p>".to_string(), Some((None, "a = 3".to_string())));
    assert!(matches!(r, Err(VehaFehler::Tera(_))));
}

#[test]
fn fehlertexte_nennen_den_tag() {
    match toml_tags_sammeln("<toml></toml>", "d", None) {
        Err(VehaFehler::KeinSrc(t)) => assert_eq!(t, "toml"),
        _ => panic!("KeinSrc erwartet"),
    }
    match tera_tag_sammeln("<tera></tera>", "d") {
        Err(VehaFehler::KeinSrc(t)) => assert_eq!(t, "tera"),
        _ => panic!("KeinSrc erwartet"),
    }
}

#[test]
fn fehlermeldungen_wie_im_text() {
    match toml_tags_sammeln("<toml name=\"x\"></toml>", "d", None) {
        Err(f) => assert_eq!(f.meldung(), "no src attribute is supplied for the toml tag."),
        Ok(_) => panic!("Fehler erwartet"),
    }
    assert_eq!(VehaFehler::MehrfachTag("tera".to_string()).meldung(), "More than one <\"tera\"> tag found");
    assert_eq!(VehaFehler::VorzeitigesEnde.meldung(), "Premature EOF");
    assert_eq!(VehaFehler::Toml("kaputt".to_string()).meldung(), "kaputt");
}
