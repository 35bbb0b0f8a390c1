use eda_cli_core::part_edits::{PriceBreak, SupplyOffer, SupplyOfferError, validate_supply_offer};

fn offer(distributor: &str, link: &str, breaks: Vec<PriceBreak>) -> SupplyOffer {
    SupplyOffer { distributor: distributor.to_string(), link: link.to_string(), price_breaks: breaks }
}

fn brk(qty: u64, negative: bool, currency: &str) -> PriceBreak {
    PriceBreak { qty, price_negative: negative, currency: currency.to_string() }
}

#[test]
fn supply_offer_accepted() {
    let o = offer("Digi", "https://example.com/p", vec![brk(1, false, "USD"), brk(100, false, "USD")]);
    assert_eq!(validate_supply_offer(&o), Ok(()));
    assert_eq!(validate_supply_offer(&offer("Digi", "l", vec![])), Ok(()));
}

#[test]
fn supply_offer_refusals_in_order() {
    assert_eq!(validate_supply_offer(&offer("  ", "", vec![])), Err(SupplyOfferError::EmptyDistributor));
    assert_eq!(validate_supply_offer(&offer("Digi", " \t", vec![])), Err(SupplyOfferError::EmptyLink));
    assert_eq!(
        validate_supply_offer(&offer("Digi", "l", vec![brk(0, true, "")])),
        Err(SupplyOfferError::ZeroQuantity)
    );
    assert_eq!(
        validate_supply_offer(&offer("Digi", "l", vec![brk(5, true, "")])),
        Err(SupplyOfferError::NegativePrice)
    );
    assert_eq!(
        validate_supply_offer(&offer("Digi", "l", vec![brk(5, false, "USD"), brk(10, false, " ")])),
        Err(SupplyOfferError::EmptyCurrency)
    );
}
