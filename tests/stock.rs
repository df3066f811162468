use herb_market::catalog::{Biome, Config, Herb, Rarity, RarityConfig, RarityConfigs, LIKELIHOOD_SCALE};
use herb_market::dice::Dice;
use herb_market::order::{bytes_le_exec, sort_by_name};
use herb_market::stock::{draw_quantity, generate_stock, line_from_rolls, stock_herb, HerbStock, MAX_QUANTITY};

fn tier(lo: u16, hi: u16, likelihood: u32) -> RarityConfig {
    RarityConfig { price_lower: lo, price_upper: hi, likelihood }
}

fn tiers() -> RarityConfigs {
    RarityConfigs {
        common: tier(1, 2, LIKELIHOOD_SCALE / 2),
        uncommon: tier(10, 20, LIKELIHOOD_SCALE / 4),
        rare: tier(100, 200, LIKELIHOOD_SCALE / 8),
        very_rare: tier(1000, 2000, LIKELIHOOD_SCALE / 16),
    }
}

fn herb(name: &str, rarity: Rarity, biomes: Vec<Biome>) -> Herb {
    Herb { name: name.to_string(), rarity, biomes }
}

fn likelihood_of(p: f64) -> u32 {
    (p * LIKELIHOOD_SCALE as f64).ceil() as u32
}

fn sage_config(rarity: Rarity, biomes: Vec<Biome>) -> Config {
    let mut rarities = tiers();
    rarities.common = tier(1, 2, likelihood_of(0.99));
    Config { local_biomes: vec![Biome::Forest], rarities, herbs: vec![herb("Sage", rarity, biomes)] }
}

fn mixed_config() -> Config {
    Config {
        local_biomes: vec![Biome::Forest, Biome::Swamp],
        rarities: tiers(),
        herbs: vec![
            herb("Wolfsbane", Rarity::Common, vec![Biome::Forest]),
            herb("Bloodgrass", Rarity::Common, vec![Biome::Desert, Biome::Hills]),
            herb("Mandrake Root", Rarity::Uncommon, vec![Biome::Swamp]),
            herb("Frost Lichen", Rarity::Rare, vec![Biome::Arctic]),
            herb("Nightshade", Rarity::VeryRare, vec![Biome::Underdark]),
            herb("Silverleaf", Rarity::VeryRare, vec![Biome::Mountain, Biome::Forest]),
            herb("Amanita Cap", Rarity::Common, vec![]),
        ],
    }
}

fn lines(stock: &[HerbStock]) -> Vec<(String, u16, u16)> {
    stock.iter().map(|s| (s.herb.name.clone(), s.quantity, s.price)).collect()
}

#[test]
fn next_rarity_steps_one_tier() {
    assert_eq!(Rarity::Common.next_rarity(), Some(Rarity::Uncommon));
    assert_eq!(Rarity::Uncommon.next_rarity(), Some(Rarity::Rare));
    assert_eq!(Rarity::Rare.next_rarity(), Some(Rarity::VeryRare));
    assert_eq!(Rarity::VeryRare.next_rarity(), None);
}

#[test]
fn config_picks_the_tier() {
    let t = tiers();
    assert_eq!(t.config(Rarity::Common).price_lower, 1);
    assert_eq!(t.config(Rarity::Uncommon).price_lower, 10);
    assert_eq!(t.config(Rarity::Rare).price_upper, 200);
    assert_eq!(t.config(Rarity::VeryRare).likelihood, LIKELIHOOD_SCALE / 16);
}

#[test]
fn local_herb_keeps_its_rarity() {
    let cfg = mixed_config();
    assert!(cfg.is_local(&cfg.herbs[0]));
    assert_eq!(cfg.effective_rarity(&cfg.herbs[0]), Some(Rarity::Common));
    assert_eq!(cfg.effective_rarity(&cfg.herbs[2]), Some(Rarity::Uncommon));
    // one local biome among several is enough
    assert!(cfg.is_local(&cfg.herbs[5]));
    assert_eq!(cfg.effective_rarity(&cfg.herbs[5]), Some(Rarity::VeryRare));
}

#[test]
fn far_herb_is_one_tier_rarer() {
    let cfg = mixed_config();
    assert!(!cfg.is_local(&cfg.herbs[1]));
    assert_eq!(cfg.effective_rarity(&cfg.herbs[1]), Some(Rarity::Uncommon));
    assert_eq!(cfg.effective_rarity(&cfg.herbs[3]), Some(Rarity::VeryRare));
    assert_eq!(cfg.effective_rarity(&cfg.herbs[6]), Some(Rarity::Uncommon));
}

#[test]
fn far_rarest_herb_is_not_stocked() {
    let cfg = mixed_config();
    assert!(!cfg.is_local(&cfg.herbs[4]));
    assert_eq!(cfg.effective_rarity(&cfg.herbs[4]), None);
}

#[test]
fn every_line_is_priced_within_its_tier() {
    let cfg = mixed_config();
    for seed in 0..200u64 {
        let mut dice = Dice::from_seed(seed);
        for line in generate_stock(&cfg, &mut dice) {
            assert!(line.quantity >= 1);
            let r = cfg.effective_rarity(&line.herb).unwrap();
            let t = cfg.rarities.config(r);
            assert!(t.price_lower <= line.price && line.price <= t.price_upper);
        }
    }
}

#[test]
fn stock_follows_catalog_order() {
    let cfg = mixed_config();
    for seed in 0..50u64 {
        let mut dice = Dice::from_seed(seed);
        let stock = generate_stock(&cfg, &mut dice);
        let positions: Vec<usize> = stock
            .iter()
            .map(|l| cfg.herbs.iter().position(|h| h.name == l.herb.name).unwrap())
            .collect();
        assert!(positions.windows(2).all(|w| w[0] < w[1]));
    }
}

#[test]
fn sorted_stock_is_ascending_by_name() {
    let cfg = mixed_config();
    let mut seen_lines = 0;
    for seed in 0..50u64 {
        let mut dice = Dice::from_seed(seed);
        let stock = generate_stock(&cfg, &mut dice);
        let before = stock.len();
        let sorted = sort_by_name(stock);
        assert_eq!(sorted.len(), before);
        seen_lines += sorted.len();
        assert!(sorted.windows(2).all(|w| w[0].herb.name <= w[1].herb.name));
    }
    assert!(seen_lines > 0);
}

#[test]
fn sort_by_name_orders_bytes_and_keeps_ties() {
    let mk = |name: &str, q: u16| HerbStock { herb: herb(name, Rarity::Common, vec![]), quantity: q, price: 1 };
    let input = vec![mk("sage", 1), mk("Sage", 2), mk("b", 3), mk("Sage", 4), mk("", 5), mk("ab", 6)];
    let out = sort_by_name(input);
    assert_eq!(
        lines(&out),
        vec![
            ("".to_string(), 5, 1),
            ("Sage".to_string(), 2, 1),
            ("Sage".to_string(), 4, 1),
            ("ab".to_string(), 6, 1),
            ("b".to_string(), 3, 1),
            ("sage".to_string(), 1, 1),
        ]
    );
    assert!(sort_by_name(vec![]).is_empty());
}

#[test]
fn byte_order_matches_str_order() {
    let words = ["", "a", "ab", "b", "B", "Ab", "é", "e", "zz", "z"];
    for a in words.iter() {
        for b in words.iter() {
            assert_eq!(bytes_le_exec(a.as_bytes(), b.as_bytes()), a <= b, "{} {}", a, b);
        }
    }
}

#[test]
fn same_seed_same_stock() {
    let cfg = mixed_config();
    for seed in [0u64, 1, 7, 12345, u64::MAX] {
        let mut d1 = Dice::from_seed(seed);
        let mut d2 = Dice::from_seed(seed);
        let a = generate_stock(&cfg, &mut d1);
        let b = generate_stock(&cfg, &mut d2);
        assert_eq!(lines(&a), lines(&b));
    }
}

#[test]
fn different_seeds_roll_differently() {
    let mut d1 = Dice::from_seed(1);
    let mut d2 = Dice::from_seed(2);
    let a: Vec<u32> = (0..16).map(|_| d1.roll_below(LIKELIHOOD_SCALE)).collect();
    let b: Vec<u32> = (0..16).map(|_| d2.roll_below(LIKELIHOOD_SCALE)).collect();
    assert_ne!(a, b);
}

#[test]
fn rolls_stay_in_bounds() {
    let mut dice = Dice::from_seed(99);
    let mut below = Vec::new();
    for _ in 0..1000 {
        let r = dice.roll_below(7);
        assert!(r < 7);
        below.push(r);
        let p = dice.roll_between(3, 5);
        assert!((3..=5).contains(&p));
    }
    assert!(below.iter().any(|&r| r != 0));
    let prices: Vec<u16> = (0..200).map(|_| dice.roll_between(3, 5)).collect();
    assert!(prices.iter().any(|&p| p != 3));
    assert!(prices.iter().any(|&p| p != 5));
    assert_eq!(dice.roll_between(8, 8), 8);
}

#[test]
fn sage_with_one_hit_then_a_miss() {
    let cfg = sage_config(Rarity::Common, vec![Biome::Forest]);
    // a hit, a miss that ends the quantity draw, then the price roll
    let got = line_from_rolls(&cfg, &cfg.herbs[0], &[0, LIKELIHOOD_SCALE - 1, 2]).unwrap();
    assert_eq!(got.1, 3);
    let line = got.0.unwrap();
    assert_eq!(line.herb.name, "Sage");
    assert_eq!(line.quantity, 1);
    assert_eq!(line.price, 2);
    let got = line_from_rolls(&cfg, &cfg.herbs[0], &[0, LIKELIHOOD_SCALE - 1, 1, 77]).unwrap();
    assert_eq!(got.1, 3);
    assert_eq!(got.0.unwrap().price, 1);
}

#[test]
fn sage_stocked_from_seeded_dice() {
    let cfg = sage_config(Rarity::Common, vec![Biome::Forest]);
    let mut stocked = 0;
    for seed in 0..20u64 {
        let mut dice = Dice::from_seed(seed);
        let stock = generate_stock(&cfg, &mut dice);
        for line in stock.iter() {
            assert_eq!(line.herb.name, "Sage");
            assert!(line.quantity >= 1);
            assert!(line.price == 1 || line.price == 2);
            stocked += 1;
        }
    }
    assert!(stocked > 0);
}

#[test]
fn far_very_rare_sage_never_appears() {
    let cfg = sage_config(Rarity::VeryRare, vec![Biome::Desert]);
    assert_eq!(cfg.effective_rarity(&cfg.herbs[0]), None);
    for seed in 0..100u64 {
        let mut dice = Dice::from_seed(seed);
        assert!(generate_stock(&cfg, &mut dice).is_empty());
        let mut dice = Dice::from_seed(seed);
        assert!(stock_herb(&cfg, &cfg.herbs[0], &mut dice).is_none());
    }
    let got = line_from_rolls(&cfg, &cfg.herbs[0], &[0, 0, 0]).unwrap();
    assert!(got.0.is_none());
    assert_eq!(got.1, 0);
}

#[test]
fn zero_likelihood_stocks_nothing() {
    let mut cfg = mixed_config();
    cfg.rarities.common.likelihood = 0;
    cfg.rarities.uncommon.likelihood = 0;
    cfg.rarities.rare.likelihood = 0;
    cfg.rarities.very_rare.likelihood = 0;
    for seed in 0..100u64 {
        let mut dice = Dice::from_seed(seed);
        assert!(generate_stock(&cfg, &mut dice).is_empty());
    }
    let got = line_from_rolls(&cfg, &cfg.herbs[0], &[0, 5]).unwrap();
    assert!(got.0.is_none());
    assert_eq!(got.1, 1);
}

#[test]
fn zero_likelihood_tier_alone_is_skipped() {
    let mut cfg = mixed_config();
    cfg.rarities.uncommon.likelihood = 0;
    for seed in 0..100u64 {
        let mut dice = Dice::from_seed(seed);
        for line in generate_stock(&cfg, &mut dice) {
            assert_ne!(cfg.effective_rarity(&line.herb), Some(Rarity::Uncommon));
        }
    }
}

#[test]
fn quantity_counts_hits_before_a_miss() {
    let cfg = sage_config(Rarity::Common, vec![Biome::Forest]);
    let l = cfg.rarities.common.likelihood;
    let got = line_from_rolls(&cfg, &cfg.herbs[0], &[l - 1, 0, 5, l, 1, 9]).unwrap();
    assert_eq!(got.1, 5);
    let line = got.0.unwrap();
    assert_eq!(line.quantity, 3);
    assert_eq!(line.price, 1);
    // a first miss yields nothing and takes one roll
    let got = line_from_rolls(&cfg, &cfg.herbs[0], &[l, 0, 0]).unwrap();
    assert!(got.0.is_none());
    assert_eq!(got.1, 1);
}

#[test]
fn rolls_that_run_out_give_none() {
    let cfg = sage_config(Rarity::Common, vec![Biome::Forest]);
    assert!(line_from_rolls(&cfg, &cfg.herbs[0], &[]).is_none());
    assert!(line_from_rolls(&cfg, &cfg.herbs[0], &[0, 0]).is_none());
    assert!(line_from_rolls(&cfg, &cfg.herbs[0], &[0, LIKELIHOOD_SCALE]).is_none());
}

#[test]
fn certain_draw_stops_at_the_cap() {
    let mut dice = Dice::from_seed(5);
    assert_eq!(draw_quantity(&mut dice, LIKELIHOOD_SCALE), MAX_QUANTITY);
    let mut dice = Dice::from_seed(5);
    assert_eq!(draw_quantity(&mut dice, 0), 0);
    let mut cfg = sage_config(Rarity::Common, vec![Biome::Forest]);
    cfg.rarities.common.likelihood = LIKELIHOOD_SCALE;
    let mut dice = Dice::from_seed(5);
    let stock = generate_stock(&cfg, &mut dice);
    assert_eq!(stock.len(), 1);
    assert_eq!(stock[0].quantity, MAX_QUANTITY);
}

#[test]
fn closing_roll_is_drawn_at_the_cap() {
    let cfg = sage_config(Rarity::Common, vec![Biome::Forest]);
    let l = cfg.rarities.common.likelihood;
    let hits = MAX_QUANTITY as usize;
    // all hits up to the cap, then the miss that ends the count, then the price
    let mut rolls = vec![0u32; hits];
    rolls.push(l);
    rolls.push(2);
    let got = line_from_rolls(&cfg, &cfg.herbs[0], &rolls).unwrap();
    assert_eq!(got.1, hits + 2);
    let line = got.0.unwrap();
    assert_eq!(line.quantity, MAX_QUANTITY);
    assert_eq!(line.price, 2);
    // a hit past the cap is drawn too, and ends the count there
    let mut rolls = vec![0u32; hits + 1];
    rolls.push(1);
    let got = line_from_rolls(&cfg, &cfg.herbs[0], &rolls).unwrap();
    assert_eq!(got.1, hits + 2);
    let line = got.0.unwrap();
    assert_eq!(line.quantity, MAX_QUANTITY);
    assert_eq!(line.price, 1);
    // without the closing roll the rolls run out
    let mut rolls = vec![0u32; hits];
    rolls.push(2);
    assert!(line_from_rolls(&cfg, &cfg.herbs[0], &rolls).is_none());
}

#[test]
fn unreached_tier_needs_no_price_range() {
    let mut cfg = sage_config(Rarity::Common, vec![Biome::Forest]);
    cfg.rarities.very_rare = tier(9, 3, LIKELIHOOD_SCALE / 2);
    for seed in 0..20u64 {
        let mut dice = Dice::from_seed(seed);
        for line in generate_stock(&cfg, &mut dice) {
            assert!(line.price == 1 || line.price == 2);
        }
    }
}

#[test]
fn herb_clone_keeps_fields() {
    let h = herb("Sage", Rarity::Rare, vec![Biome::Coastal, Biome::Hills]);
    let c = h.clone();
    assert_eq!(c.name, "Sage");
    assert_eq!(c.rarity, Rarity::Rare);
    assert_eq!(c.biomes, vec![Biome::Coastal, Biome::Hills]);
}
