use osi2::{
    addr_of_symbol, free_osi2_str, name_of_struct, resolve, symbol_addr_from_name,
    symbol_from_name, symbol_value_from_name, value_of_symbol, Catalog, StructType, Symbol,
};

fn kernel() -> Catalog {
    let mut catalog = Catalog::new();
    assert!(catalog.symbols.insert(
        String::from("init_task"),
        Symbol { address: 0xffffffff81e12940 }
    ));
    assert!(catalog.symbols.insert(String::from("zero"), Symbol { address: 0 }));
    assert!(catalog.symbols.insert(String::from("top"), Symbol { address: u64::MAX }));
    catalog
}

#[test]
fn init_task_with_slide() {
    let catalog = kernel();
    assert_eq!(symbol_value_from_name(&catalog, b"init_task"), 0xffffffff81e12940);
    assert_eq!(symbol_addr_from_name(&catalog, b"init_task", 0x1000000), 0xffffffff82e12940);
}

#[test]
fn runtime_address_is_static_address_plus_slide() {
    let catalog = kernel();
    for slide in [0u64, 1, 0x1000000, 0x7e1ed6bf] {
        for name in ["init_task", "zero"] {
            let symbol = symbol_from_name(&catalog, name.as_bytes()).unwrap();
            assert_eq!(addr_of_symbol(symbol, slide), value_of_symbol(symbol) + slide);
            assert_eq!(
                symbol_addr_from_name(&catalog, name.as_bytes(), slide),
                symbol_value_from_name(&catalog, name.as_bytes()) + slide
            );
            assert_eq!(
                symbol_addr_from_name(&catalog, name.as_bytes(), slide),
                addr_of_symbol(symbol, slide)
            );
        }
    }
}

#[test]
fn static_address_ignores_the_slide() {
    let symbol = Symbol { address: 0xffffffff81e12940 };
    assert_eq!(value_of_symbol(&symbol), 0xffffffff81e12940);
    assert_eq!(addr_of_symbol(&symbol, 0), 0xffffffff81e12940);
    assert_eq!(addr_of_symbol(&symbol, 0x1000000), 0xffffffff82e12940);
    assert_eq!(value_of_symbol(&symbol), 0xffffffff81e12940);
}

#[test]
fn addresses_at_the_edge_of_the_address_space() {
    let catalog = kernel();
    assert_eq!(symbol_addr_from_name(&catalog, b"top", 0), u64::MAX);
    assert_eq!(symbol_addr_from_name(&catalog, b"zero", u64::MAX), u64::MAX);
    assert_eq!(addr_of_symbol(&Symbol { address: u64::MAX - 1 }, 1), u64::MAX);
    assert_eq!(addr_of_symbol(&Symbol { address: 0 }, 0), 0);
}

#[test]
fn a_caller_can_test_a_name_before_resolving_it() {
    let catalog = kernel();
    assert!(resolve(&catalog.symbols, b"init_task").is_ok());
    assert!(resolve(&catalog.symbols, b"swapper_pg_dir").is_err());
    assert!(resolve(&catalog.symbols, &[0xff, 0xff]).is_err());
}

#[test]
fn releasing_nothing_does_nothing() {
    let catalog = kernel();
    let name = name_of_struct(&catalog, &StructType::new(64));
    assert!(name.is_none());
    free_osi2_str(name);
    free_osi2_str(None);
    assert_eq!(symbol_value_from_name(&catalog, b"init_task"), 0xffffffff81e12940);
}

#[test]
fn releasing_owned_text_once() {
    let mut catalog = kernel();
    assert!(catalog.user_types.insert(String::from("list_head"), StructType::new(16)));
    let name = name_of_struct(&catalog, &StructType::new(16));
    assert_eq!(name.as_ref().map(|text| text.as_bytes_with_nul()), Some(&b"list_head\0"[..]));
    free_osi2_str(name);
    let again = name_of_struct(&catalog, &StructType::new(16));
    assert_eq!(again.as_ref().map(|text| text.as_bytes_with_nul()), Some(&b"list_head\0"[..]));
    free_osi2_str(again);
}

#[test]
fn an_address_past_the_top_wraps_round() {
    let catalog = kernel();
    assert_eq!(addr_of_symbol(&Symbol { address: u64::MAX }, 1), 0);
    assert_eq!(addr_of_symbol(&Symbol { address: u64::MAX }, u64::MAX), u64::MAX - 1);
    assert_eq!(addr_of_symbol(&Symbol { address: 0xffffffff81e12940 }, 0x7e1ed6c0), 0);
    assert_eq!(addr_of_symbol(&Symbol { address: 0xffffffff81e12940 }, 0x7e1ed6d0), 0x10);
    assert_eq!(symbol_addr_from_name(&catalog, b"top", 1), 0);
    assert_eq!(symbol_addr_from_name(&catalog, b"top", 0x1000000), 0xffffff);
    assert_eq!(symbol_addr_from_name(&catalog, b"init_task", u64::MAX), 0xffffffff81e1293f);
    assert_eq!(symbol_value_from_name(&catalog, b"top"), u64::MAX);
}
