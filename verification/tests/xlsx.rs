use quickshift::xlsx::{
    cadenas_de_eventos, eventos_xml, filas_de_eventos, filas_de_hoja, leer_cadenas_compartidas,
    ruta_de_hoja_en_libro, ruta_hoja_de_eventos, EventoXml,
};

fn compartidas(v: &[&str]) -> Vec<String> {
    v.iter().map(|s| s.to_string()).collect()
}

#[test]
fn eventos_terminan_en_el_fin() {
    let ev = eventos_xml("<a x=\"1\">  hola  <b/></a>");
    assert!(matches!(ev.last(), Some(EventoXml::FinDocumento)));
    assert!(matches!(&ev[0], EventoXml::Inicio { nombre, atributos }
        if nombre == "a" && atributos.len() == 1
            && atributos[0] == Some(("x".to_string(), "1".to_string()))));
    assert!(matches!(&ev[1], EventoXml::Texto(t) if t == "hola"));
    assert!(matches!(&ev[2], EventoXml::Otro));
    assert!(matches!(&ev[3], EventoXml::Fin { nombre } if nombre == "a"));
    assert_eq!(ev.len(), 5);
    let ev = eventos_xml("<a></b>");
    assert!(matches!(ev.last(), Some(EventoXml::Error(_))));
}

#[test]
fn cadenas_compartidas() {
    let xml = "<sst><si><t>Hola</t></si><si><t> Mundo &amp; más </t></si><si><t></t></si><si><t>Fin</t></si></sst>";
    assert_eq!(leer_cadenas_compartidas(xml).unwrap(), vec!["Hola", "Mundo & más", "Fin"]);
    let e = leer_cadenas_compartidas("<sst><t>a</x></sst>").unwrap_err();
    assert!(e.starts_with("XML parse error in sharedStrings: "));
    assert!(leer_cadenas_compartidas("").unwrap().is_empty());
    let ev = eventos_xml("<t>uno</t><t>dos</t>");
    assert_eq!(cadenas_de_eventos(&ev).unwrap(), vec!["uno", "dos"]);
}

#[test]
fn ruta_de_la_hoja() {
    assert_eq!(ruta_de_hoja_en_libro(None, None, "Oferta").unwrap(), "xl/worksheets/sheet1.xml");
    let libro = "<workbook><sheets><sheet name=\"Otra\" r:id=\"rId1\"></sheet><sheet name=\"Oferta\" r:id=\"rId3\"></sheet></sheets></workbook>";
    let rels = "<Relationships><Relationship Id=\"rId1\" Target=\"worksheets/sheet1.xml\"></Relationship><Relationship Id=\"rId3\" Target=\"worksheets/sheet3.xml\"></Relationship></Relationships>";
    assert_eq!(ruta_de_hoja_en_libro(Some(libro), Some(rels), "Oferta").unwrap(), "xl/worksheets/sheet3.xml");
    assert_eq!(ruta_de_hoja_en_libro(Some(libro), Some(rels), "Nada").unwrap(), "xl/worksheets/sheet1.xml");
    assert_eq!(ruta_de_hoja_en_libro(Some(libro), None, "Oferta").unwrap(), "xl/worksheets/sheet1.xml");
    // Las etiquetas vacías (`<sheet .../>`) no cuentan como apertura.
    let libro_vacias = "<workbook><sheets><sheet name=\"Oferta\" r:id=\"rId3\"/></sheets></workbook>";
    assert_eq!(ruta_de_hoja_en_libro(Some(libro_vacias), Some(rels), "Oferta").unwrap(), "xl/worksheets/sheet1.xml");
    let e = ruta_de_hoja_en_libro(Some("<workbook></sheets>"), Some(rels), "Oferta").unwrap_err();
    assert!(e.starts_with("XML parse error in workbook: "));
    let e = ruta_de_hoja_en_libro(Some(libro), Some("<Relationships></x>"), "Oferta").unwrap_err();
    assert!(e.starts_with("XML parse error in workbook rels: "));
    let l = eventos_xml(libro);
    let r = eventos_xml(rels);
    assert_eq!(ruta_hoja_de_eventos(Some(&l), Some(&r), "Otra").unwrap(), "xl/worksheets/sheet1.xml");
}

#[test]
fn filas_de_la_hoja() {
    let hoja = "<worksheet><sheetData>\
        <row r=\"1\"><c r=\"A1\" t=\"s\"><v>0</v></c><c r=\"C1\"><v>42</v></c></row>\
        <row r=\"2\"><c r=\"B2\" t=\"s\"><v>7</v></c></row>\
        <row r=\"3\"></row>\
        <row r=\"4\"><c r=\"AA4\" t=\"s\"><v>x</v></c><c><v>9</v></c></row>\
        </sheetData></worksheet>";
    let f = filas_de_hoja(hoja, &compartidas(&["Hola"])).unwrap();
    assert_eq!(f.len(), 4);
    assert_eq!(f[0], vec!["Hola", "", "42"]);
    assert_eq!(f[1], vec!["", ""]);
    assert!(f[2].is_empty());
    assert_eq!(f[3].len(), 27);
    assert_eq!(f[3][26], "Hola");
    let e = filas_de_hoja("<worksheet><row><c r=\"A1\"><v>1</x></c></row></worksheet>", &vec![]).unwrap_err();
    assert!(e.starts_with("XML parse error in sheet"));
    let ev = eventos_xml("<row><c r=\"B1\"><v>5</v></c></row>");
    assert_eq!(filas_de_eventos(&ev, &vec![]).unwrap(), vec![vec!["", "5"]]);
}
