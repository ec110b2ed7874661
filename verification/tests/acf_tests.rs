use steam_workshop_utility::acf::zero_acf_text;

const ACF: &str = "\"AppWorkshop\"\n{\n\t\"appid\"\t\t\"440\"\n\t\"WorkshopItemsInstalled\"\n\t{\n\t\t\"111\"\n\t\t{\n\t\t\t\"size\"\t\t\"1234\"\n\t\t\t\"timeupdated\"\t\t\"1700000000\"\n\t\t\t\"manifest\"\t\t\"999\"\n\t\t}\n\t\t\"222\"\n\t\t{\n\t\t\t\"size\"\t\t\"55\"\n\t\t\t\"timeupdated\"\t\t\"1600000000\"\n\t\t}\n\t}\n\t\"WorkshopItemDetails\"\n\t{\n\t\t\"111\"\n\t\t{\n\t\t\t\"manifest\"\t\t\"999\"\n\t\t\t\"timeupdated\"\t\t\"1700000000\"\n\t\t\t\"timetouched\"\t\t\"1700000001\"\n\t\t}\n\t}\n}\n";

fn ids(v: &[&str]) -> Vec<String> {
    v.iter().map(|s| s.to_string()).collect()
}

#[test]
fn zeroes_only_the_chosen_item() {
    let out = zero_acf_text(ACF, &ids(&["111"]));
    let expected = ACF
        .replacen("\"size\"\t\t\"1234\"", "\"size\"\t\t\"0\"", 1)
        .replace("\"timeupdated\"\t\t\"1700000000\"", "\"timeupdated\"\t\t\"0\"");
    assert_eq!(out, expected);
    assert!(out.contains("\"size\"\t\t\"55\""));
    assert!(out.contains("\"timeupdated\"\t\t\"1600000000\""));
    assert!(out.contains("\"timetouched\"\t\t\"1700000001\""));
    assert!(out.contains("\"manifest\"\t\t\"999\""));
}

#[test]
fn no_chosen_items_changes_nothing() {
    assert_eq!(zero_acf_text(ACF, &Vec::new()), ACF);
    assert_eq!(zero_acf_text(ACF, &ids(&["333"])), ACF);
}

#[test]
fn patching_twice_is_patching_once() {
    let once = zero_acf_text(ACF, &ids(&["111", "222"]));
    let twice = zero_acf_text(&once, &ids(&["111", "222"]));
    assert_eq!(once, twice);
    assert_eq!(once.lines().count(), ACF.lines().count());
}

#[test]
fn crlf_lines_and_missing_final_newline() {
    let text = "\"WorkshopItemsInstalled\"\r\n{\r\n\"7\"\r\n{\r\n  \"size\"  \"9\"\r\n}\r\n}";
    let out = zero_acf_text(text, &ids(&["7"]));
    assert_eq!(
        out,
        "\"WorkshopItemsInstalled\"\n{\n\"7\"\n{\n  \"size\"\t\t\"0\"\n}\n}\n"
    );
}

#[test]
fn values_outside_item_blocks_are_kept() {
    let text = "\"WorkshopItemsInstalled\"\n{\n\"size\" \"5\"\n}\n\"size\" \"6\"\n";
    assert_eq!(zero_acf_text(text, &ids(&["size"])), text);
    assert_eq!(zero_acf_text("", &ids(&["1"])), "");
}

#[test]
fn patching_crlf_text_twice_is_patching_once() {
    let text = "\"WorkshopItemsInstalled\"\r\n{\r\n\"7\"\r\n{\r\n  \"size\"  \"9\"\r\n}\r\n}";
    let once = zero_acf_text(text, &ids(&["7"]));
    assert_eq!(zero_acf_text(&once, &ids(&["7"])), once);
}

#[test]
fn a_carriage_return_left_on_a_line_goes_on_the_second_pass() {
    let once = zero_acf_text("a\r\r\n", &Vec::new());
    assert_eq!(once, "a\r\n");
    assert_eq!(zero_acf_text(&once, &Vec::new()), "a\n");
}
