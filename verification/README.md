# veha

Verschmelzer für erweiterbare XHTML-Seiten: Rohinhalte (Markdown, TOML,
Datensätze aus SQLite, XHTML-Vorlagen) werden über einige zusätzliche Tags in
XHTML-Strukturen eingefügt.

## Aufbau

- `src/` ist die Bibliothek; jede Funktion hat einen Vertrag, den Verus
  beweist. Jeder Motor liest ein Dokument als Folge von XML-Ereignissen
  (`leser`), verarbeitet sie in einem Zustandsautomaten, dessen Schritt als
  Spezifikation dasteht (die Presse, `press`, und das Sammeln der `<tera>`-
  und `<toml>`-Tags sind direkt beschrieben: welche Ereignisse bleiben, welche
  Konfigurationen gelten, an welcher Stelle es abbricht), und schreibt die Ereignisse mit dem Schreiber
  von quick-xml wieder (`ereignis`). Lesefehler tragen die Meldung des Lesers.
  Motoren, die Dateien oder Datenbanken brauchen, arbeiten in zwei Schritten:
  der erste nennt die Anfragen, der zweite nimmt die Antworten in derselben
  Reihenfolge (`sql`, `mdmotor`, `qwen`, `tomlmotor`, `teramotor`).
  `gesetze` enthält, was über mehrere Aufrufe oder für alle Dokumente gilt.
- `app/` ist das Programm: Kommandozeile, Dateien, SQLite, CSV-Karten und
  serde.
- `tests/` prüft die Bibliothek an Beispielen.
