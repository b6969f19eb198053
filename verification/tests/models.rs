use quickshift::models::{MapaRamos, RamoDisponible};

fn ramo(codigo: &str, holgura: i32) -> RamoDisponible {
    RamoDisponible {
        nombre: codigo.to_lowercase(),
        codigo: codigo.to_string(),
        holgura,
        numb_correlativo: 0,
        critico: holgura == 0,
        codigo_ref: None,
        dificultad: Some(78.5f64.to_bits()),
    }
}

#[test]
fn mapa_lee_lo_escrito() {
    let mut m = MapaRamos::new();
    assert_eq!(m.len(), 0);
    assert!(m.get("X").is_none());
    m.insert("A".to_string(), ramo("A", 1));
    m.insert("B".to_string(), ramo("B", 2));
    assert_eq!(m.get("A").unwrap().holgura, 1);
    m.insert("A".to_string(), ramo("A", 5));
    assert_eq!(m.len(), 2);
    assert_eq!(m.get("A").unwrap().holgura, 5);
    assert_eq!(m.get("B").unwrap().holgura, 2);
    assert_eq!(m.clave(0), "A");
    assert_eq!(m.posicion("B"), Some(1));
    assert_eq!(f64::from_bits(m.ramo(1).dificultad.unwrap()), 78.5);
}

#[test]
fn copia_de_ramo_y_codigo_ref() {
    let mut m = MapaRamos::new();
    m.insert("A".to_string(), ramo("A", 0));
    m.set_codigo_ref(0, Some("A2".to_string()));
    let r = m.get("A").unwrap().copia();
    assert_eq!(r.codigo_ref.as_deref(), Some("A2"));
    assert!(r.critico);
    assert_eq!(r.nombre, "a");
}
