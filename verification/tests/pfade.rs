use veha::binder::{ausgabepfadersteller, kennzeichen_ausgeben, seite_erzeugen, seiten_erzeugen};
use veha::pfad::{endung_mit_sprache_erweitern, extend_extension_with_language, verbinden};
use veha::preprocess::collection_name;
use veha::site;
use veha::tabular::Datensatz;

fn datensatz(felder: &[(&str, &str)]) -> Datensatz {
    Datensatz { felder: felder.iter().map(|(k, w)| (k.to_string(), w.to_string())).collect() }
}

#[test]
fn sprache_erweitert_die_endung() {
    let fr = "fr".to_string();
    assert_eq!(endung_mit_sprache_erweitern("./post.md", Some(&fr)), "./post.fr.md");
    assert_eq!(endung_mit_sprache_erweitern("a/b/konf.toml", Some(&fr)), "a/b/konf.fr.toml");
    assert_eq!(extend_extension_with_language("aus/index.xhtml", Some(&fr)), "aus/index.fr.xhtml");
}

#[test]
fn ohne_sprache_oder_endung_bleibt_der_pfad() {
    let de = "de".to_string();
    assert_eq!(endung_mit_sprache_erweitern("./post.md", None), "./post.md");
    assert_eq!(endung_mit_sprache_erweitern("a/README", Some(&de)), "a/README");
    assert_eq!(endung_mit_sprache_erweitern("a/.profil", Some(&de)), "a/.profil");
}

#[test]
fn pfade_verbinden() {
    assert_eq!(verbinden("vorlagen", "post.md"), "vorlagen/post.md");
    assert_eq!(verbinden("vorlagen/", "post.md"), "vorlagen/post.md");
    assert_eq!(verbinden("vorlagen", "/abs/post.md"), "/abs/post.md");
    assert_eq!(verbinden("", "post.md"), "post.md");
}

#[test]
fn kennzeichen_einer_sammlung() {
    assert_eq!(kennzeichen_ausgeben("ausgabe/beitrag+{id}.xhtml"), Some("id".to_string()));
    assert_eq!(kennzeichen_ausgeben("aus+{jahr}/x.xhtml"), Some("jahr".to_string()));
    assert_eq!(kennzeichen_ausgeben("ausgabe/index.xhtml"), None);
    assert_eq!(kennzeichen_ausgeben("ausgabe/{id}+.xhtml"), None);
}

#[test]
fn sammlungsname_aus_dem_dateinamen() {
    assert_eq!(collection_name("vorlagen/beitrag+{slug}.xhtml"), Some("slug".to_string()));
    assert_eq!(collection_name("vorlagen/beitrag{slug}.xhtml"), None);
    assert_eq!(collection_name("vorlagen/beitrag.xhtml"), None);
    assert_eq!(collection_name("{k}.xhtml"), None);
}

#[test]
fn ausgabepfad_mit_werten() {
    assert_eq!(ausgabepfadersteller("aus/+{id}.xhtml", &datensatz(&[("id", "7")])), "aus/7.xhtml");
    assert_eq!(
        ausgabepfadersteller("aus/+{jahr}/+{id}.html", &datensatz(&[("id", "1"), ("jahr", "2025"), ("id", "9")])),
        "aus/2025/9.html"
    );
    assert_eq!(ausgabepfadersteller("aus/index.html", &datensatz(&[("id", "7")])), "aus/index.html");
}

#[test]
fn seiten_einer_sammlung() {
    let seiten = seiten_erzeugen(
        "aus/+{id}.html",
        "<p><column tag=\"b\" content=\"name\"></column></p>",
        vec![datensatz(&[("id", "1"), ("name", "Eins")]), datensatz(&[("id", "2"), ("name", "Zwei")])],
    )
    .unwrap();
    assert_eq!(seiten.len(), 2);
    assert_eq!(seiten[0].pfad, "aus/1.html");
    assert_eq!(String::from_utf8(seiten[0].inhalt.clone()).unwrap(), "<p><b>Eins</b></p>");
    assert_eq!(seiten[1].pfad, "aus/2.html");
    assert_eq!(String::from_utf8(seiten[1].inhalt.clone()).unwrap(), "<p><b>Zwei</b></p>");
}

#[test]
fn eine_seite_einer_sammlung() {
    let seite = seite_erzeugen(
        "aus/+{id}.html",
        "<p><column tag=\"b\" content=\"name\"></column></p>",
        &datensatz(&[("id", "7"), ("name", "Sieben")]),
    )
    .unwrap();
    assert_eq!(seite.pfad, "aus/7.html");
    assert_eq!(String::from_utf8(seite.inhalt).unwrap(), "<p><b>Sieben</b></p>");
    assert!(seite_erzeugen("aus/+{id}.html", "<p></column></p>", &datensatz(&[("id", "1")])).is_err());
}

#[test]
fn seitenplan_einer_website() {
    let karte = vec![
        vec!["index.xhtml".to_string(), "aus/index.html".to_string()],
        vec!["nur_eins".to_string()],
        vec!["a".to_string(), "b".to_string(), "c".to_string()],
        vec!["/abs/x.xhtml".to_string(), "aus/x.html".to_string()],
    ];
    assert_eq!(
        site::plan("vorlagen", karte),
        vec![
            ("vorlagen/index.xhtml".to_string(), "vorlagen/aus/index.html".to_string()),
            ("/abs/x.xhtml".to_string(), "vorlagen/aus/x.html".to_string())
        ]
    );
}

#[test]
fn karte_ohne_kopf_und_kommentare() {
    let karte = b"input,output\n# draft\nindex.xhtml,out/index.xhtml\n";
    assert_eq!(
        site::process("site", karte),
        Some(vec![("site/index.xhtml".to_string(), "site/out/index.xhtml".to_string())])
    );
    assert_eq!(site::process("site", b"a,b\nx,y,z\n"), None);
}

#[test]
fn ausgabepfad_unabhaengig_von_der_reihenfolge() {
    let a = ausgabepfadersteller("aus/+{a}-+{b}/+{c}.html", &datensatz(&[("a", "1"), ("b", "2")]));
    let b = ausgabepfadersteller("aus/+{a}-+{b}/+{c}.html", &datensatz(&[("b", "2"), ("a", "1")]));
    assert_eq!(a, "aus/1-2/+{c}.html");
    assert_eq!(a, b);
}

#[test]
fn ausgabepfad_mit_losem_plus() {
    let felder = datensatz(&[("k", "v"), ("j", "w")]);
    assert_eq!(ausgabepfadersteller("a+b/++{k}+{j}.x", &felder), "a+b/+vw.x");
    assert_eq!(ausgabepfadersteller("c++/+{k}", &felder), "c++/v");
}

#[test]
fn beide_spracherweiterungen_gleich() {
    let fr = "fr".to_string();
    for p in ["a/b.md", "a/README", "x.y.toml", ""] {
        assert_eq!(extend_extension_with_language(p, Some(&fr)), endung_mit_sprache_erweitern(p, Some(&fr)));
        assert_eq!(extend_extension_with_language(p, None), endung_mit_sprache_erweitern(p, None));
    }
}
