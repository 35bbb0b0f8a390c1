use eda_cli_core::inventory::{NativeBomRow, NativePnpRow, compare_native_project_bom, compare_native_project_pnp};
use eda_cli_core::inventory_csv::{
    InventoryColumn, InventoryCsvError, csv_escape, parse_bom_csv, parse_csv_line, parse_pnp_csv,
    render_native_project_bom_csv, render_native_project_pnp_csv,
};

const BOM_HEADER: &str = "reference,value,part_uuid,package_uuid,layer,x_nm,y_nm,rotation_deg,locked\n";
const PNP_HEADER: &str = "reference,x_nm,y_nm,rotation_deg,layer,side,package_uuid,part_uuid,value,locked\n";

fn bom(reference: &str, value: &str, layer: i32, x: i64, y: i64, rot: i32, locked: bool) -> NativeBomRow {
    NativeBomRow {
        reference: reference.to_string(),
        value: value.to_string(),
        part_uuid: "00000000-0000-0000-0000-000000000001".to_string(),
        package_uuid: "00000000-0000-0000-0000-000000000002".to_string(),
        layer,
        x_nm: x,
        y_nm: y,
        rotation_deg: rot,
        locked,
    }
}

fn pnp(reference: &str, value: &str, layer: i32, side: &str) -> NativePnpRow {
    NativePnpRow {
        reference: reference.to_string(),
        x_nm: -2500000,
        y_nm: 1000,
        rotation_deg: 270,
        layer,
        side: side.to_string(),
        package_uuid: "00000000-0000-0000-0000-000000000002".to_string(),
        part_uuid: "00000000-0000-0000-0000-000000000001".to_string(),
        value: value.to_string(),
        locked: false,
    }
}

fn strings(v: &[&str]) -> Vec<String> {
    v.iter().map(|s| s.to_string()).collect()
}

#[test]
fn csv_escape_quotes_only_where_needed() {
    assert_eq!(csv_escape("R1"), "R1");
    assert_eq!(csv_escape(""), "");
    assert_eq!(csv_escape("10k,1%"), "\"10k,1%\"");
    assert_eq!(csv_escape("say \"hi\""), "\"say \"\"hi\"\"\"");
    assert_eq!(csv_escape("two\nlines"), "\"two\nlines\"");
}

#[test]
fn csv_line_splits_on_commas_outside_quotes() {
    assert_eq!(parse_csv_line("a,\"b,c\",d"), Some(strings(&["a", "b,c", "d"])));
    assert_eq!(parse_csv_line("\"x\"\"y\""), Some(strings(&["x\"y"])));
    assert_eq!(parse_csv_line(""), Some(strings(&[""])));
    assert_eq!(parse_csv_line("a,"), Some(strings(&["a", ""])));
    assert_eq!(parse_csv_line("\"open,field"), None);
}

#[test]
fn csv_escape_reads_back() {
    for value in ["plain", "10k,1%", "say \"hi\"", "\"\"", ",", ""] {
        let line = format!("{},{}", csv_escape(value), csv_escape("next"));
        assert_eq!(parse_csv_line(&line), Some(strings(&[value, "next"])));
    }
}

#[test]
fn bom_csv_is_written_row_by_row() {
    let rows = vec![bom("R1", "10k", 1, 1000, -2000, 90, true), bom("C1", "100n, X7R", 32, 0, 5, 0, false)];
    let text = render_native_project_bom_csv(&rows);
    let expected = format!(
        "{}R1,10k,{p},{k},1,1000,-2000,90,true\nC1,\"100n, X7R\",{p},{k},32,0,5,0,false\n",
        BOM_HEADER,
        p = "00000000-0000-0000-0000-000000000001",
        k = "00000000-0000-0000-0000-000000000002"
    );
    assert_eq!(text, expected);
    assert_eq!(render_native_project_bom_csv(&[]), BOM_HEADER);
}

#[test]
fn bom_csv_reads_back() {
    let rows = vec![
        bom("R1", "10k", 1, 1000, -2000, 90, true),
        bom("C1", "100n, \"X7R\"", 32, i64::MIN, i64::MAX, i32::MIN, false),
    ];
    let text = render_native_project_bom_csv(&rows);
    assert_eq!(parse_bom_csv(&text), Ok(rows));
}

#[test]
fn bom_csv_refusals() {
    assert_eq!(parse_bom_csv(""), Err(InventoryCsvError::MissingHeader));
    assert_eq!(parse_bom_csv("reference,value\n"), Err(InventoryCsvError::UnexpectedHeader));
    let row = "R1,10k,p,k,1,0,0,0,true";
    assert_eq!(parse_bom_csv(&format!("{BOM_HEADER}R1,10k,p,k,1,0,0,0\n")), Err(InventoryCsvError::ColumnCount));
    assert_eq!(
        parse_bom_csv(&format!("{BOM_HEADER}R1,\"10k,p,k,1,0,0,0,true\n")),
        Err(InventoryCsvError::MalformedRow)
    );
    assert_eq!(
        parse_bom_csv(&format!("{BOM_HEADER}R1,10k,p,k,top,0,0,0,true\n")),
        Err(InventoryCsvError::InvalidField { column: InventoryColumn::Layer })
    );
    assert_eq!(
        parse_bom_csv(&format!("{BOM_HEADER}R1,10k,p,k,1,0,0.5,0,true\n")),
        Err(InventoryCsvError::InvalidField { column: InventoryColumn::YNm })
    );
    assert_eq!(
        parse_bom_csv(&format!("{BOM_HEADER}R1,10k,p,k,1,0,0,0,yes\n")),
        Err(InventoryCsvError::InvalidField { column: InventoryColumn::Locked })
    );
    let parsed = parse_bom_csv(&format!("{BOM_HEADER}\n{row}\n\n")).unwrap();
    assert_eq!(parsed.len(), 1);
    assert_eq!(parsed[0].reference, "R1");
    assert_eq!(parsed[0].part_uuid, "p");
    assert!(parsed[0].locked);
}

#[test]
fn pnp_csv_is_written_row_by_row() {
    let rows = vec![pnp("U1", "MCU", 1, "top")];
    let text = render_native_project_pnp_csv(&rows);
    let expected = format!(
        "{}U1,-2500000,1000,270,1,top,{k},{p},MCU,false\n",
        PNP_HEADER,
        k = "00000000-0000-0000-0000-000000000002",
        p = "00000000-0000-0000-0000-000000000001"
    );
    assert_eq!(text, expected);
}

#[test]
fn pnp_csv_reads_back() {
    let rows = vec![pnp("U1", "MCU", 1, "top"), pnp("J1", "Header, 2x5", 32, "bottom")];
    let text = render_native_project_pnp_csv(&rows);
    assert_eq!(parse_pnp_csv(&text), Ok(rows));
}

#[test]
fn pnp_csv_refusals() {
    assert_eq!(parse_pnp_csv(""), Err(InventoryCsvError::MissingHeader));
    assert_eq!(parse_pnp_csv(BOM_HEADER), Err(InventoryCsvError::UnexpectedHeader));
    assert_eq!(
        parse_pnp_csv(&format!("{PNP_HEADER}U1,x,0,0,1,top,k,p,v,false\n")),
        Err(InventoryCsvError::InvalidField { column: InventoryColumn::XNm })
    );
    assert_eq!(
        parse_pnp_csv(&format!("{PNP_HEADER}U1,0,0,90.5,1,top,k,p,v,false\n")),
        Err(InventoryCsvError::InvalidField { column: InventoryColumn::RotationDeg })
    );
    assert_eq!(
        parse_pnp_csv(&format!("{PNP_HEADER}U1,0,0,0,1,top,k,p,v\n")),
        Err(InventoryCsvError::ColumnCount)
    );
    assert_eq!(parse_pnp_csv(PNP_HEADER), Ok(vec![]));
}

#[test]
fn exported_bom_compares_clean() {
    let rows = vec![bom("R2", "1k", 1, 5, 5, 0, false), bom("R1", "a,\"b\"", 32, -1, 2, 180, true)];
    let read = parse_bom_csv(&render_native_project_bom_csv(&rows)).unwrap();
    let c = compare_native_project_bom(&rows, &read);
    assert_eq!(c.matched, vec!["R1".to_string(), "R2".to_string()]);
    assert!(c.missing.is_empty() && c.extra.is_empty() && c.drift.is_empty());
}

#[test]
fn exported_pnp_compares_clean() {
    let rows = vec![pnp("U2", "x", 1, "top"), pnp("U1", "y,z", 32, "bottom")];
    let read = parse_pnp_csv(&render_native_project_pnp_csv(&rows)).unwrap();
    let c = compare_native_project_pnp(&rows, &read);
    assert_eq!(c.matched, vec!["U1".to_string(), "U2".to_string()]);
    assert!(c.missing.is_empty() && c.extra.is_empty() && c.drift.is_empty());
}
