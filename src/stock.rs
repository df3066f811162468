//! Drawing the shop's stock from its catalog.
use crate::catalog::{grows_locally, Config, Herb, HerbView, Rarity, LIKELIHOOD_SCALE};
use crate::dice::Dice;
use vstd::prelude::*;

verus! {

/// Most units of one herb a shop stocks: a quantity draw that is still
/// hitting once it has counted this many stops there.
pub const MAX_QUANTITY: u16 = 65535;

/// One line of the stock: a herb, how many units, and the price of one.
#[derive(Debug)]
pub struct HerbStock {
    pub herb: Herb,
    pub quantity: u16,
    pub price: u16,
}

/// A stock line as a value.
pub struct StockView {
    pub herb: HerbView,
    pub quantity: u16,
    pub price: u16,
}

impl View for HerbStock {
    type V = StockView;

    open spec fn view(&self) -> StockView {
        StockView { herb: self.herb@, quantity: self.quantity, price: self.price }
    }
}

/// The value of an optional stock line.
pub open spec fn opt_view(e: Option<HerbStock>) -> Option<StockView> {
    match e {
        Some(s) => Some(s@),
        None => None,
    }
}

/// The values of a run of stock lines.
pub open spec fn stock_views(s: Seq<HerbStock>) -> Seq<StockView> {
    s.map_values(|e: HerbStock| e@)
}

/// The values of a run of herbs.
pub open spec fn herb_views(herbs: Seq<Herb>) -> Seq<HerbView> {
    herbs.map_values(|h: Herb| h@)
}

/// Number of leading rolls below `likelihood`, counting at most `cap`.
pub open spec fn hits(rolls: Seq<nat>, likelihood: int, cap: nat) -> nat
    decreases cap,
{
    if cap == 0 || rolls.len() == 0 || rolls[0] >= likelihood {
        0
    } else {
        1 + hits(rolls.drop_first(), likelihood, (cap - 1) as nat)
    }
}

/// What the shop does with one herb, given the rolls that follow: the stock
/// line it yields, if any, and how many rolls that takes. A herb not stocked
/// at any tier takes none. Otherwise the quantity is the number of leading
/// rolls under the tier's likelihood (at most `MAX_QUANTITY`); the draw
/// takes one roll more, the miss that ends it or, at the most, the roll that
/// would have gone past it. A quantity of zero yields no line, and any other
/// is followed by one roll for the price.
pub open spec fn outcome(cfg: Config, herb: HerbView, rolls: Seq<nat>) -> (Option<StockView>, nat) {
    match cfg.stocked_rarity(herb) {
        None => (None, 0),
        Some(r) => {
            let q = hits(rolls, cfg.rarities.tier(r).likelihood as int, MAX_QUANTITY as nat);
            let used = q + 1;
            if q == 0 {
                (None, used)
            } else {
                (
                    Some(StockView { herb, quantity: q as u16, price: rolls[used as int] as u16 }),
                    used + 1,
                )
            }
        },
    }
}

/// The stock lines that the herbs yield, in catalog order, when they are
/// drawn one after the other from `rolls`.
pub open spec fn stock_of(cfg: Config, herbs: Seq<HerbView>, rolls: Seq<nat>) -> Seq<StockView>
    decreases herbs.len(),
{
    if herbs.len() == 0 {
        Seq::empty()
    } else {
        let (e, used) = outcome(cfg, herbs[0], rolls);
        let rest = stock_of(cfg, herbs.drop_first(), rolls.skip(used as int));
        match e {
            Some(s) => seq![s] + rest,
            None => rest,
        }
    }
}

/// How many rolls drawing the herbs one after the other from `rolls` takes.
pub open spec fn rolls_used(cfg: Config, herbs: Seq<HerbView>, rolls: Seq<nat>) -> nat
    decreases herbs.len(),
{
    if herbs.len() == 0 {
        0
    } else {
        let used = outcome(cfg, herbs[0], rolls).1;
        used + rolls_used(cfg, herbs.drop_first(), rolls.skip(used as int))
    }
}

/// A stock line that the shop may hold: at least one unit, of a herb it
/// stocks, at a price within that herb's tier.
pub open spec fn valid_line(cfg: Config, e: StockView) -> bool {
    &&& e.quantity >= 1
    &&& cfg.stocked_rarity(e.herb).is_some()
    &&& cfg.rarities.tier(cfg.stocked_rarity(e.herb).unwrap()).price_lower <= e.price
    &&& e.price <= cfg.rarities.tier(cfg.stocked_rarity(e.herb).unwrap()).price_upper
}

proof fn lemma_hits_facts(rolls: Seq<nat>, likelihood: int, cap: nat)
    ensures
        hits(rolls, likelihood, cap) <= cap,
        hits(rolls, likelihood, cap) <= rolls.len(),
        forall|k: int| 0 <= k < hits(rolls, likelihood, cap) ==> rolls[k] < likelihood,
        hits(rolls, likelihood, cap) < cap && hits(rolls, likelihood, cap) < rolls.len()
            ==> rolls[hits(rolls, likelihood, cap) as int] >= likelihood,
    decreases cap,
{
    if !(cap == 0 || rolls.len() == 0 || rolls[0] >= likelihood) {
        lemma_hits_facts(rolls.drop_first(), likelihood, (cap - 1) as nat);
        assert forall|k: int| 0 <= k < hits(rolls, likelihood, cap) implies rolls[k] < likelihood by {
            if k > 0 {
                assert(rolls[k] == rolls.drop_first()[k - 1]);
            }
        }
    }
}

proof fn lemma_hits_exact(rolls: Seq<nat>, likelihood: int, cap: nat, n: nat)
    requires
        n <= cap,
        n <= rolls.len(),
        forall|k: int| 0 <= k < n ==> rolls[k] < likelihood,
        n < cap ==> n == rolls.len() || rolls[n as int] >= likelihood,
    ensures
        hits(rolls, likelihood, cap) == n,
    decreases n,
{
    if n > 0 {
        let rest = rolls.drop_first();
        assert forall|k: int| 0 <= k < n - 1 implies rest[k] < likelihood by {
            assert(rest[k] == rolls[k + 1]);
        }
        if n - 1 < cap - 1 && n < rolls.len() {
            assert(rest[n - 1] == rolls[n as int]);
        }
        lemma_hits_exact(rest, likelihood, (cap - 1) as nat, (n - 1) as nat);
    }
}

proof fn lemma_hits_prefix(rolls: Seq<nat>, likelihood: int, cap: nat, more: Seq<nat>)
    requires
        hits(rolls, likelihood, cap) == cap || hits(rolls, likelihood, cap) < rolls.len(),
    ensures
        hits(rolls + more, likelihood, cap) == hits(rolls, likelihood, cap),
{
    let all = rolls + more;
    lemma_hits_facts(rolls, likelihood, cap);
    let n = hits(rolls, likelihood, cap);
    assert forall|k: int| 0 <= k < n implies all[k] < likelihood by {
        assert(all[k] == rolls[k]);
    }
    if n < cap {
        assert(all[n as int] == rolls[n as int]);
    }
    lemma_hits_exact(all, likelihood, cap, n);
}

/// Rolls drawn after a herb's own do not change what the herb yields.
proof fn lemma_outcome_prefix(cfg: Config, herb: HerbView, rolls: Seq<nat>, more: Seq<nat>)
    requires
        outcome(cfg, herb, rolls).1 == rolls.len(),
    ensures
        outcome(cfg, herb, rolls + more) == outcome(cfg, herb, rolls),
{
    if let Some(r) = cfg.stocked_rarity(herb) {
        let l = cfg.rarities.tier(r).likelihood as int;
        let cap = MAX_QUANTITY as nat;
        let all = rolls + more;
        let n = hits(rolls, l, cap);
        lemma_hits_prefix(rolls, l, cap, more);
        if n > 0 {
            assert(all[n + 1 as int] == rolls[n + 1 as int]);
        }
    }
}

/// A herb's own rolls alone decide what it yields.
proof fn lemma_outcome_take(cfg: Config, herb: HerbView, rolls: Seq<nat>)
    requires
        outcome(cfg, herb, rolls).1 <= rolls.len(),
    ensures
        outcome(cfg, herb, rolls.take(outcome(cfg, herb, rolls).1 as int)) == outcome(cfg, herb, rolls),
{
    if let Some(r) = cfg.stocked_rarity(herb) {
        let l = cfg.rarities.tier(r).likelihood as int;
        let cap = MAX_QUANTITY as nat;
        let t = rolls.take(outcome(cfg, herb, rolls).1 as int);
        lemma_hits_facts(rolls, l, cap);
        let n = hits(rolls, l, cap);
        assert forall|k: int| 0 <= k < n implies t[k] < l by {
            assert(t[k] == rolls[k]);
        }
        if n < cap {
            assert(t[n as int] == rolls[n as int]);
        }
        lemma_hits_exact(t, l, cap, n);
        if n > 0 {
            assert(t[n + 1 as int] == rolls[n + 1 as int]);
        }
    }
}

proof fn lemma_same_stream(cfg: Config, herbs: Seq<HerbView>, d1: Seq<nat>, d2: Seq<nat>)
    requires
        d1.len() <= d2.len(),
        d2.take(d1.len() as int) == d1,
        rolls_used(cfg, herbs, d1) == d1.len(),
        rolls_used(cfg, herbs, d2) == d2.len(),
    ensures
        d1 == d2,
        stock_of(cfg, herbs, d1) == stock_of(cfg, herbs, d2),
    decreases herbs.len(),
{
    if herbs.len() == 0 {
        assert(d1 =~= d2);
    } else {
        let h = herbs[0];
        let u = outcome(cfg, h, d1).1;
        lemma_outcome_take(cfg, h, d1);
        let t = d1.take(u as int);
        assert(d1 =~= t + d1.skip(u as int));
        lemma_outcome_prefix(cfg, h, t, d1.skip(u as int));
        assert(d2 =~= t + d2.skip(u as int));
        lemma_outcome_prefix(cfg, h, t, d2.skip(u as int));
        assert(d2.skip(u as int).take(d1.skip(u as int).len() as int) =~= d1.skip(u as int));
        lemma_same_stream(cfg, herbs.drop_first(), d1.skip(u as int), d2.skip(u as int));
        assert(d1 =~= d2);
    }
}

/// Determinism: two runs of `generate_stock` over one configuration, whose
/// dice hand out one stream of values (what one run drew begins what the
/// other drew), draw exactly the same values and so give the same stock.
pub proof fn lemma_stock_determined(cfg: Config, d1: Seq<nat>, d2: Seq<nat>)
    requires
        d1.len() <= d2.len(),
        d2.take(d1.len() as int) == d1,
        rolls_used(cfg, herb_views(cfg.herbs@), d1) == d1.len(),
        rolls_used(cfg, herb_views(cfg.herbs@), d2) == d2.len(),
    ensures
        d1 == d2,
        stock_of(cfg, herb_views(cfg.herbs@), d1) == stock_of(cfg, herb_views(cfg.herbs@), d2),
{
    lemma_same_stream(cfg, herb_views(cfg.herbs@), d1, d2);
}

/// Every line drawn from any rolls holds at least one unit of a catalog
/// herb that the shop stocks at a tier whose likelihood is not zero.
pub proof fn lemma_listed_lines(cfg: Config, herbs: Seq<HerbView>, rolls: Seq<nat>)
    ensures
        forall|k: int|
            0 <= k < stock_of(cfg, herbs, rolls).len() ==> {
                let e = #[trigger] stock_of(cfg, herbs, rolls)[k];
                &&& e.quantity >= 1
                &&& herbs.contains(e.herb)
                &&& cfg.stocked_rarity(e.herb).is_some()
                &&& cfg.rarities.tier(cfg.stocked_rarity(e.herb).unwrap()).likelihood > 0
            },
    decreases herbs.len(),
{
    if herbs.len() > 0 {
        let (e, used) = outcome(cfg, herbs[0], rolls);
        let rest_rolls = rolls.skip(used as int);
        lemma_listed_lines(cfg, herbs.drop_first(), rest_rolls);
        let s = stock_of(cfg, herbs, rolls);
        let rest = stock_of(cfg, herbs.drop_first(), rest_rolls);
        assert forall|k: int| 0 <= k < s.len() implies {
            let e = #[trigger] s[k];
            &&& e.quantity >= 1
            &&& herbs.contains(e.herb)
            &&& cfg.stocked_rarity(e.herb).is_some()
            &&& cfg.rarities.tier(cfg.stocked_rarity(e.herb).unwrap()).likelihood > 0
        } by {
            if e.is_some() && k == 0 {
                let l = cfg.rarities.tier(cfg.stocked_rarity(herbs[0]).unwrap()).likelihood as int;
                lemma_hits_facts(rolls, l, MAX_QUANTITY as nat);
                assert(s[0] == e.unwrap());
                assert(herbs[0] == s[0].herb);
                if l == 0 {
                    assert(hits(rolls, l, MAX_QUANTITY as nat) == 0);
                }
            } else {
                let j = if e.is_some() { k - 1 } else { k };
                assert(s[k] == rest[j]);
                assert(herbs.drop_first().contains(rest[j].herb));
                let w = choose|w: int| 0 <= w < herbs.drop_first().len() && herbs.drop_first()[w] == rest[j].herb;
                assert(herbs[w + 1] == rest[j].herb);
            }
        }
    }
}

/// A herb that grows in none of the shop's biomes and is of the rarest tier
/// is never listed, whatever is rolled.
pub proof fn lemma_far_rarest_never_listed(cfg: Config, herb: HerbView, rolls: Seq<nat>)
    requires
        !grows_locally(cfg.local_biomes@, herb),
        herb.rarity == Rarity::VeryRare,
    ensures
        forall|k: int|
            0 <= k < stock_of(cfg, herb_views(cfg.herbs@), rolls).len() ==> (#[trigger] stock_of(
                cfg,
                herb_views(cfg.herbs@),
                rolls,
            )[k]).herb != herb,
{
    lemma_listed_lines(cfg, herb_views(cfg.herbs@), rolls);
}

/// A tier whose likelihood is zero never yields a line: no herb stocked at
/// that tier is listed, whatever is rolled.
pub proof fn lemma_zero_likelihood_never_listed(cfg: Config, rarity: Rarity, rolls: Seq<nat>)
    requires
        cfg.rarities.tier(rarity).likelihood == 0,
    ensures
        forall|k: int|
            0 <= k < stock_of(cfg, herb_views(cfg.herbs@), rolls).len() ==> cfg.stocked_rarity(
                (#[trigger] stock_of(cfg, herb_views(cfg.herbs@), rolls)[k]).herb,
            ) != Some(rarity),
{
    lemma_listed_lines(cfg, herb_views(cfg.herbs@), rolls);
}

/// The line that one herb yields from the given rolls, and how many of them
/// it takes (see `outcome`); `None` where the rolls run out first.
pub fn line_from_rolls(cfg: &Config, herb: &Herb, rolls: &[u32]) -> (r: Option<(Option<HerbStock>, usize)>)
    ensures
        ({
            let o = outcome(*cfg, herb@, rolls@.map_values(|x: u32| x as nat));
            &&& r.is_some() <==> o.1 <= rolls@.len()
            &&& r.is_some() ==> o == (opt_view(r.unwrap().0), r.unwrap().1 as nat)
        }),
{
    let ghost rs = rolls@.map_values(|x: u32| x as nat);
    let rarity = match cfg.effective_rarity(herb) {
        Some(r) => r,
        None => {
            return Some((None, 0));
        },
    };
    let tier = cfg.rarities.config(rarity);
    let mut q: usize = 0;
    while q < rolls.len() && q < MAX_QUANTITY as usize && rolls[q] < tier.likelihood
        invariant
            q <= rolls@.len(),
            q <= MAX_QUANTITY,
            rs == rolls@.map_values(|x: u32| x as nat),
            forall|k: int| 0 <= k < q ==> rs[k] < tier.likelihood,
        decreases rolls.len() - q,
    {
        q = q + 1;
    }
    proof {
        lemma_hits_exact(rs, tier.likelihood as int, MAX_QUANTITY as nat, q as nat);
    }
    let used = q + 1;
    if used > rolls.len() {
        return None;
    }
    if q == 0 {
        return Some((None, used));
    }
    if used >= rolls.len() {
        return None;
    }
    let price = rolls[used] as u16;
    Some((Some(HerbStock { herb: herb.clone(), quantity: q as u16, price }), used + 1))
}

/// Draws a quantity: one unit for each roll under `likelihood`, up to the
/// first roll that is not. Once `MAX_QUANTITY` units are counted, the next
/// roll ends the draw whatever it is.
pub fn draw_quantity(dice: &mut Dice, likelihood: u32) -> (q: u16)
    ensures
        old(dice).drawn().len() <= final(dice).drawn().len(),
        final(dice).drawn().take(old(dice).drawn().len() as int) == old(dice).drawn(),
        ({
            let d = final(dice).drawn().skip(old(dice).drawn().len() as int);
            &&& q == hits(d, likelihood as int, MAX_QUANTITY as nat)
            &&& d.len() == q + 1
        }),
{
    let ghost start = dice.drawn().len() as int;
    let mut q: u16 = 0;
    loop
        invariant
            start <= dice.drawn().len(),
            dice.drawn().take(start) == old(dice).drawn(),
            start == old(dice).drawn().len(),
            dice.drawn().len() == start + q,
            forall|k: int| start <= k < dice.drawn().len() ==> dice.drawn()[k] < likelihood,
        decreases MAX_QUANTITY - q,
    {
        let ghost before = dice.drawn();
        let r = dice.roll_below(LIKELIHOOD_SCALE);
        assert(dice.drawn().take(start) =~= before.take(start));
        if r >= likelihood || q == MAX_QUANTITY {
            proof {
                let d = dice.drawn().skip(start);
                assert forall|k: int| 0 <= k < q implies d[k] < likelihood by {
                    assert(d[k] == dice.drawn()[start + k]);
                }
                assert(d[q as int] == r);
                lemma_hits_exact(d, likelihood as int, MAX_QUANTITY as nat, q as nat);
            }
            return q;
        }
        q = q + 1;
    }
}

/// Draws one herb's line of stock, if the shop stocks it and the quantity
/// drawn is not zero.
pub fn stock_herb(cfg: &Config, herb: &Herb, dice: &mut Dice) -> (r: Option<HerbStock>)
    requires
        cfg.can_price(herb@),
    ensures
        old(dice).drawn().len() <= final(dice).drawn().len(),
        final(dice).drawn().take(old(dice).drawn().len() as int) == old(dice).drawn(),
        ({
            let d = final(dice).drawn().skip(old(dice).drawn().len() as int);
            outcome(*cfg, herb@, d) == (opt_view(r), d.len())
        }),
        r.is_some() ==> r.unwrap().herb@ == herb@ && valid_line(*cfg, r.unwrap()@),
        cfg.stocked_rarity(herb@).is_none() ==> r.is_none(),
{
    let ghost start = dice.drawn().len() as int;
    let rarity = match cfg.effective_rarity(herb) {
        Some(r) => r,
        None => {
            assert(dice.drawn().skip(start) =~= Seq::<nat>::empty());
            return None;
        },
    };
    let tier = cfg.rarities.config(rarity);
    let quantity = draw_quantity(dice, tier.likelihood);
    if quantity == 0 {
        return None;
    }
    let ghost mid = dice.drawn();
    let price = dice.roll_between(tier.price_lower, tier.price_upper);
    proof {
        let dq = mid.skip(start);
        let d = dice.drawn().skip(start);
        assert(d =~= dq + seq![price as nat]);
        assert(dice.drawn().take(start) =~= mid.take(start));
        lemma_hits_prefix(dq, tier.likelihood as int, MAX_QUANTITY as nat, seq![price as nat]);
        assert(d[quantity + 1 as int] == price);
    }
    Some(HerbStock { herb: herb.clone(), quantity, price })
}

/// The stock drawn for the herbs of the catalog from index `i` on.
fn stock_from(cfg: &Config, i: usize, dice: &mut Dice) -> (r: Vec<HerbStock>)
    requires
        cfg.wf(),
        i <= cfg.herbs.len(),
    ensures
        old(dice).drawn().len() <= final(dice).drawn().len(),
        final(dice).drawn().take(old(dice).drawn().len() as int) == old(dice).drawn(),
        stock_views(r@) == stock_of(
            *cfg,
            herb_views(cfg.herbs@).skip(i as int),
            final(dice).drawn().skip(old(dice).drawn().len() as int),
        ),
        rolls_used(
            *cfg,
            herb_views(cfg.herbs@).skip(i as int),
            final(dice).drawn().skip(old(dice).drawn().len() as int),
        ) == final(dice).drawn().len() - old(dice).drawn().len(),
        forall|k: int| 0 <= k < r@.len() ==> valid_line(*cfg, #[trigger] r@[k]@),
    decreases cfg.herbs.len() - i,
{
    let ghost d0 = dice.drawn();
    if i == cfg.herbs.len() {
        assert(herb_views(cfg.herbs@).skip(i as int) =~= Seq::<HerbView>::empty());
        assert(dice.drawn().take(d0.len() as int) =~= d0);
        return Vec::new();
    }
    let e = stock_herb(cfg, &cfg.herbs[i], dice);
    let ghost d1 = dice.drawn();
    let mut rest = stock_from(cfg, i + 1, dice);
    let ghost rest_views = stock_views(rest@);
    match e {
        Some(s) => {
            rest.insert(0, s);
        },
        None => {},
    }
    proof {
        let d2 = dice.drawn();
        let here = d1.skip(d0.len() as int);
        let after = d2.skip(d1.len() as int);
        let all = d2.skip(d0.len() as int);
        assert(d2.take(d1.len() as int).take(d0.len() as int) =~= d2.take(d0.len() as int));
        assert(all =~= here + after);
        lemma_outcome_prefix(*cfg, cfg.herbs@[i as int]@, here, after);
        let hv = herb_views(cfg.herbs@);
        assert(hv.skip(i as int)[0] == cfg.herbs@[i as int]@);
        assert(hv.skip(i as int).drop_first() =~= hv.skip(i + 1));
        assert(all.skip(here.len() as int) =~= after);
        if e.is_some() {
            assert(stock_views(rest@) =~= seq![e.unwrap()@] + rest_views);
        }
    }
    rest
}

/// Draws the shop's stock: for each herb of the catalog, in order, the line
/// it yields from the dice (see `outcome`). Every line holds at least one
/// unit of a herb the shop stocks, priced within that herb's tier.
pub fn generate_stock(cfg: &Config, dice: &mut Dice) -> (r: Vec<HerbStock>)
    requires
        cfg.wf(),
    ensures
        old(dice).drawn().len() <= final(dice).drawn().len(),
        final(dice).drawn().take(old(dice).drawn().len() as int) == old(dice).drawn(),
        stock_views(r@) == stock_of(
            *cfg,
            herb_views(cfg.herbs@),
            final(dice).drawn().skip(old(dice).drawn().len() as int),
        ),
        rolls_used(
            *cfg,
            herb_views(cfg.herbs@),
            final(dice).drawn().skip(old(dice).drawn().len() as int),
        ) == final(dice).drawn().len() - old(dice).drawn().len(),
        forall|k: int| 0 <= k < r@.len() ==> valid_line(*cfg, #[trigger] r@[k]@),
{
    let r = stock_from(cfg, 0, dice);
    assert(herb_views(cfg.herbs@).skip(0) =~= herb_views(cfg.herbs@));
    r
}

} // verus!
