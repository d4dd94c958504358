use neurographrag::commands::history::created_at_iso;
use neurographrag::timestamps::epoch_to_iso;

#[test]
fn epoch_zero_gera_iso_valido() {
    let epoch: i64 = 0;
    let iso = created_at_iso(epoch);
    assert_eq!(iso, "1970-01-01T00:00:00Z");
}

#[test]
fn epoch_tipico_gera_iso_rfc3339() {
    let epoch: i64 = 1_745_000_000;
    let iso = created_at_iso(epoch);
    assert!(!iso.is_empty(), "created_at_iso não deve ser vazio");
    assert!(iso.ends_with('Z'), "created_at_iso deve terminar em Z (UTC)");
    assert!(iso.contains('T'), "created_at_iso deve conter separador T");
}

#[test]
fn epoch_negativo_retorna_string_vazia() {
    let epoch: i64 = i64::MIN;
    let iso = created_at_iso(epoch);
    assert_eq!(iso, "", "epoch inválido deve retornar string vazia via unwrap_or_default");
}

#[test]
fn typical_epoch_is_rendered_exactly() {
    assert_eq!(created_at_iso(1_745_000_000), "2025-04-18T18:13:20Z");
    assert_eq!(epoch_to_iso(1_431_648_000), "2015-05-15T00:00:00Z");
}

#[test]
fn out_of_range_epoch_reads_as_unix_epoch() {
    assert_eq!(epoch_to_iso(i64::MIN), "1970-01-01T00:00:00Z");
    assert_eq!(epoch_to_iso(i64::MAX), "1970-01-01T00:00:00Z");
}
