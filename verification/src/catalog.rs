//! The payout-method catalog: converts the third-party product list
//! into catalog entries, drops deny-listed and unsupported products,
//! ranks the result deterministically, prepends the three first-party
//! methods, and caches the whole list under a six-hour expiry.

use vstd::prelude::*;
use crate::money::Money;
use crate::ranking::{
    isort_by, lemma_isort_by_ensures, lemma_method_order_valid, lemma_same_elems, method_leq,
    method_order, money_order, sort_methods, sorted_by_leq, sorted_moneys, str_eq,
};
use crate::types::{
    clone_method_vec, clone_string_vec, ImageModel, IntervalModel, MethodModel, PayoutInterval,
    PayoutMethod, PayoutMethodFee, PayoutMethodKind, Product, ProductImage, ProductModel,
    method_models, product_models,
};

verus! {

/// How long a refreshed catalog stays fresh.
pub const CATALOG_TTL_SECONDS: i64 = 21_600;

/// The product categories the platform can pay out through.
pub open spec fn supported_category(c: Seq<char>) -> bool {
    ||| c == "merchant_cards"@
    ||| c == "visa"@
    ||| c == "bank"@
    ||| c == "ach"@
    ||| c == "visa_card"@
}

/// Product identifiers the platform refuses: physical cards and
/// cryptocurrency-redeemable products.
pub open spec fn denied_id(id: Seq<char>) -> bool {
    ||| id == "A2J05SWPI2QG"@
    ||| id == "1UOOSHUUYTAM"@
    ||| id == "5EVJN47HPDFT"@
    ||| id == "NI9M4EVAVGFJ"@
    ||| id == "VLY29QHTMNGT"@
    ||| id == "7XU98H109Y3A"@
    ||| id == "0CGEDFP2UIKV"@
    ||| id == "PDYLQU0K073Y"@
    ||| id == "HCS5Z7O2NV5G"@
    ||| id == "IY1VMST1MOXS"@
    ||| id == "VRPZLJ7HCA8X"@
    ||| id == "GWQQS5RM8IZS"@
    ||| id == "896MYD4SGOGZ"@
    ||| id == "PWLEN1VZGMZA"@
    ||| id == "A2VRM96J5K5W"@
    ||| id == "HV9ICIM3JT7P"@
    ||| id == "K2KLSPVWC2Q4"@
    ||| id == "HRBRQLLTDF95"@
    ||| id == "UUBYLZVK7QAB"@
    ||| id == "BH8W3XEDEOJN"@
    ||| id == "7WGE043X1RYQ"@
    ||| id == "2B13MHUZZVTF"@
    ||| id == "JN6R44P86EYX"@
    ||| id == "DA8H43GU84SO"@
    ||| id == "QK2XAQHSDEH4"@
    ||| id == "J7K1IQFS76DK"@
    ||| id == "NL4JQ2G7UPRZ"@
    ||| id == "OEFTMSBA5ELH"@
    ||| id == "A3CQK6UHNV27"@
}

fn category_allowed(c: &str) -> (r: bool)
    ensures
        r == supported_category(c@),
{
    str_eq(c, "merchant_cards") || str_eq(c, "visa") || str_eq(c, "bank") || str_eq(c, "ach")
        || str_eq(c, "visa_card")
}

fn id_denied(id: &str) -> (r: bool)
    ensures
        r == denied_id(id@),
{
    str_eq(id, "A2J05SWPI2QG") || str_eq(id, "1UOOSHUUYTAM") || str_eq(id, "5EVJN47HPDFT")
        || str_eq(id, "NI9M4EVAVGFJ") || str_eq(id, "VLY29QHTMNGT") || str_eq(id, "7XU98H109Y3A")
        || str_eq(id, "0CGEDFP2UIKV") || str_eq(id, "PDYLQU0K073Y") || str_eq(id, "HCS5Z7O2NV5G")
        || str_eq(id, "IY1VMST1MOXS") || str_eq(id, "VRPZLJ7HCA8X") || str_eq(id, "GWQQS5RM8IZS")
        || str_eq(id, "896MYD4SGOGZ") || str_eq(id, "PWLEN1VZGMZA") || str_eq(id, "A2VRM96J5K5W")
        || str_eq(id, "HV9ICIM3JT7P") || str_eq(id, "K2KLSPVWC2Q4") || str_eq(id, "HRBRQLLTDF95")
        || str_eq(id, "UUBYLZVK7QAB") || str_eq(id, "BH8W3XEDEOJN") || str_eq(id, "7WGE043X1RYQ")
        || str_eq(id, "2B13MHUZZVTF") || str_eq(id, "JN6R44P86EYX") || str_eq(id, "DA8H43GU84SO")
        || str_eq(id, "QK2XAQHSDEH4") || str_eq(id, "J7K1IQFS76DK") || str_eq(id, "NL4JQ2G7UPRZ")
        || str_eq(id, "OEFTMSBA5ELH") || str_eq(id, "A3CQK6UHNV27")
}

/// The models of a list of product images.
pub open spec fn image_models(s: Seq<ProductImage>) -> Seq<ImageModel> {
    Seq::new(s.len(), |i: int| s[i]@)
}

pub open spec fn first_card_from(images: Seq<ImageModel>, i: int) -> Option<Seq<char>>
    decreases images.len() - i,
{
    if i < 0 || i >= images.len() {
        None
    } else if images[i].is_card {
        Some(images[i].src)
    } else {
        first_card_from(images, i + 1)
    }
}

/// The source of the first card-typed image, if any.
pub open spec fn first_card_image(images: Seq<ImageModel>) -> Option<Seq<char>> {
    first_card_from(images, 0)
}

/// The view of an optional string.
pub open spec fn opt_string_view(o: Option<String>) -> Option<Seq<char>> {
    match o {
        Some(s) => Some(s@),
        None => None,
    }
}

fn find_card_image(images: &Vec<ProductImage>) -> (r: Option<String>)
    ensures
        opt_string_view(r) == first_card_image(image_models(images@)),
{
    let n = images.len();
    for i in 0..n
        invariant
            n == images@.len(),
            first_card_image(image_models(images@)) == first_card_from(
                image_models(images@),
                i as int,
            ),
    {
        proof {
            assert(image_models(images@)[i as int] == images@[i as int]@);
        }
        if images[i].is_card {
            return Some(images[i].src.clone());
        }
    }
    None
}

/// The minimum of each priced tier, in order.
pub open spec fn sku_mins(skus: Seq<crate::types::Sku>) -> Seq<Money> {
    Seq::new(skus.len(), |i: int| skus[i].min)
}

/// The interval a product's tiers give its method: a sorted fixed
/// list when several tiers exist, the single tier's range when one
/// does, and a zero-to-5000 fallback when none do.
pub open spec fn interval_of(skus: Seq<crate::types::Sku>) -> IntervalModel {
    if skus.len() > 1 {
        IntervalModel::Fixed { values: isort_by(money_order(), sku_mins(skus)) }
    } else if skus.len() == 1 {
        IntervalModel::Standard { min: skus[0].min, max: skus[0].max }
    } else {
        IntervalModel::Standard { min: Money { units: 0 }, max: Money { units: 5_000_000_000 } }
    }
}

/// The fee of a converted method: four percent with a 0.25 floor for
/// automated clearing house payouts, zero otherwise.
pub open spec fn fee_of(category: Seq<char>) -> PayoutMethodFee {
    if category == "ach"@ {
        PayoutMethodFee {
            percentage: Money { units: 40_000 },
            min: Money { units: 250_000 },
            max: None,
        }
    } else {
        PayoutMethodFee { percentage: Money { units: 0 }, min: Money { units: 0 }, max: None }
    }
}

/// What a kept product becomes in the catalog.
pub open spec fn convert_product(p: ProductModel) -> MethodModel {
    MethodModel {
        id: p.id,
        kind: PayoutMethodKind::Tremendous,
        name: p.name,
        countries: p.countries,
        image_url: first_card_image(p.images),
        interval: interval_of(p.skus),
        fee: fee_of(p.category),
    }
}

/// Whether a product enters the catalog: its category must be
/// supported, its identifier off the deny-list, and a fixed-interval
/// product (more than one tier) must support USD, since fixed
/// denominations cannot be currency-converted.
pub open spec fn product_included(p: ProductModel) -> bool {
    &&& supported_category(p.category)
    &&& !denied_id(p.id)
    &&& p.skus.len() > 1 ==> p.currency_codes.contains("USD"@)
}

/// The kept products, converted, in upstream order.
pub open spec fn convert_products(ps: Seq<ProductModel>) -> Seq<MethodModel>
    decreases ps.len(),
{
    if ps.len() == 0 {
        Seq::empty()
    } else {
        convert_products(ps.drop_last()) + if product_included(ps.last()) {
            seq![convert_product(ps.last())]
        } else {
            Seq::empty()
        }
    }
}

fn currency_includes_usd(codes: &Vec<String>) -> (r: bool)
    ensures
        r == codes.deep_view().contains("USD"@),
{
    let n = codes.len();
    for i in 0..n
        invariant
            n == codes@.len(),
            forall|k: int| 0 <= k < i ==> codes.deep_view()[k] != "USD"@,
    {
        if str_eq(codes[i].as_str(), "USD") {
            proof {
                assert(codes.deep_view()[i as int] == "USD"@);
            }
            return true;
        }
        proof {
            assert(codes.deep_view()[i as int] == codes@[i as int]@);
        }
    }
    proof {
        assert forall|k: int| 0 <= k < codes.deep_view().len() implies codes.deep_view()[k]
            != "USD"@ by {}
    }
    false
}

/// Converts one product to its catalog entry.
fn method_from_product(p: &Product) -> (m: PayoutMethod)
    ensures
        m@ == convert_product(p@),
{
    let image_url = find_card_image(&p.images);
    let interval = if p.skus.len() > 1 {
        let mut mins: Vec<Money> = Vec::new();
        let n = p.skus.len();
        for k in 0..n
            invariant
                n == p.skus@.len(),
                mins@ =~= sku_mins(p.skus@).take(k as int),
        {
            mins.push(p.skus[k].min);
            proof {
                assert(mins@ =~= sku_mins(p.skus@).take(k as int + 1));
            }
        }
        proof {
            assert(sku_mins(p.skus@).take(n as int) =~= sku_mins(p.skus@));
            assert(mins@ == sku_mins(p.skus@));
        }
        let values = sorted_moneys(&mins);
        PayoutInterval::Fixed { values }
    } else if p.skus.len() == 1 {
        let first = p.skus[0];
        PayoutInterval::Standard { min: first.min, max: first.max }
    } else {
        PayoutInterval::Standard {
            min: Money::from_units(0),
            max: Money::from_units(5_000_000_000),
        }
    };
    let fee = if str_eq(p.category.as_str(), "ach") {
        PayoutMethodFee {
            percentage: Money::from_units(40_000),
            min: Money::from_units(250_000),
            max: None,
        }
    } else {
        PayoutMethodFee {
            percentage: Money::from_units(0),
            min: Money::from_units(0),
            max: None,
        }
    };
    let m = PayoutMethod {
        id: p.id.clone(),
        kind: PayoutMethodKind::Tremendous,
        name: p.name.clone(),
        supported_countries: clone_string_vec(&p.countries),
        image_url,
        interval,
        fee,
    };
    proof {
        assert(m@.countries =~= p@.countries);
        assert(m@ =~= convert_product(p@));
    }
    m
}

/// Converts every kept product, in upstream order.
fn convert_all(products: &Vec<Product>) -> (r: Vec<PayoutMethod>)
    ensures
        method_models(r@) == convert_products(product_models(products@)),
{
    let mut out: Vec<PayoutMethod> = Vec::new();
    let n = products.len();
    for i in 0..n
        invariant
            n == products@.len(),
            method_models(out@) =~= convert_products(product_models(products@).take(i as int)),
    {
        let p = &products[i];
        let mut keep = category_allowed(p.category.as_str()) && !id_denied(p.id.as_str());
        if keep && p.skus.len() > 1 {
            keep = currency_includes_usd(&p.currency_codes);
        }
        proof {
            assert(keep == product_included(p@));
            assert(product_models(products@).take(i as int + 1).drop_last() =~= product_models(
                products@,
            ).take(i as int));
            assert(product_models(products@).take(i as int + 1).last() == p@);
        }
        if keep {
            let m = method_from_product(p);
            let ghost pre = out@;
            out.push(m);
            proof {
                assert(method_models(out@) =~= method_models(pre).push(m@));
                assert(method_models(out@) =~= convert_products(
                    product_models(products@).take(i as int + 1),
                ));
            }
        } else {
            proof {
                assert(method_models(out@) =~= convert_products(
                    product_models(products@).take(i as int + 1),
                ));
            }
        }
    }
    proof {
        assert(product_models(products@).take(n as int) =~= product_models(products@));
    }
    out
}

/// The first-party PayPal method for the United States.
pub open spec fn paypal_us_model() -> MethodModel {
    MethodModel {
        id: "paypal_us"@,
        kind: PayoutMethodKind::PayPal,
        name: "PayPal"@,
        countries: seq!["US"@],
        image_url: None,
        interval: IntervalModel::Standard {
            min: Money { units: 250_000 },
            max: Money { units: 100_000_000_000 },
        },
        fee: PayoutMethodFee {
            percentage: Money { units: 20_000 },
            min: Money { units: 250_000 },
            max: Some(Money { units: 1_000_000 }),
        },
    }
}

/// The first-party Venmo method: PayPal-US terms under the Venmo rail.
pub open spec fn venmo_model() -> MethodModel {
    MethodModel {
        id: "venmo"@,
        kind: PayoutMethodKind::Venmo,
        name: "Venmo"@,
        countries: seq!["US"@],
        image_url: None,
        interval: IntervalModel::Standard {
            min: Money { units: 250_000 },
            max: Money { units: 100_000_000_000 },
        },
        fee: PayoutMethodFee {
            percentage: Money { units: 20_000 },
            min: Money { units: 250_000 },
            max: Some(Money { units: 1_000_000 }),
        },
    }
}

/// The first-party PayPal method for every other country.
pub open spec fn paypal_intl_model(countries: Seq<Seq<char>>) -> MethodModel {
    MethodModel {
        id: "paypal_in"@,
        kind: PayoutMethodKind::PayPal,
        name: "PayPal"@,
        countries,
        image_url: None,
        interval: IntervalModel::Standard {
            min: Money { units: 250_000 },
            max: Money { units: 100_000_000_000 },
        },
        fee: PayoutMethodFee {
            percentage: Money { units: 20_000 },
            min: Money { units: 0 },
            max: Some(Money { units: 20_000_000 }),
        },
    }
}

fn make_paypal_us() -> (m: PayoutMethod)
    ensures
        m@ == paypal_us_model(),
{
    let mut countries: Vec<String> = Vec::new();
    countries.push("US".to_owned());
    let m = PayoutMethod {
        id: "paypal_us".to_owned(),
        kind: PayoutMethodKind::PayPal,
        name: "PayPal".to_owned(),
        supported_countries: countries,
        image_url: None,
        interval: PayoutInterval::Standard {
            min: Money::from_units(250_000),
            max: Money::from_units(100_000_000_000),
        },
        fee: PayoutMethodFee {
            percentage: Money::from_units(20_000),
            min: Money::from_units(250_000),
            max: Some(Money::from_units(1_000_000)),
        },
    };
    proof {
        assert(m@.countries =~= seq!["US"@]);
        assert(m@ =~= paypal_us_model());
    }
    m
}

fn make_venmo() -> (m: PayoutMethod)
    ensures
        m@ == venmo_model(),
{
    let mut countries: Vec<String> = Vec::new();
    countries.push("US".to_owned());
    let m = PayoutMethod {
        id: "venmo".to_owned(),
        kind: PayoutMethodKind::Venmo,
        name: "Venmo".to_owned(),
        supported_countries: countries,
        image_url: None,
        interval: PayoutInterval::Standard {
            min: Money::from_units(250_000),
            max: Money::from_units(100_000_000_000),
        },
        fee: PayoutMethodFee {
            percentage: Money::from_units(20_000),
            min: Money::from_units(250_000),
            max: Some(Money::from_units(1_000_000)),
        },
    };
    proof {
        assert(m@.countries =~= seq!["US"@]);
        assert(m@ =~= venmo_model());
    }
    m
}

fn make_paypal_intl(countries: Vec<String>) -> (m: PayoutMethod)
    ensures
        m@ == paypal_intl_model(countries.deep_view()),
{
    let ghost cv = countries.deep_view();
    let m = PayoutMethod {
        id: "paypal_in".to_owned(),
        kind: PayoutMethodKind::PayPal,
        name: "PayPal".to_owned(),
        supported_countries: countries,
        image_url: None,
        interval: PayoutInterval::Standard {
            min: Money::from_units(250_000),
            max: Money::from_units(100_000_000_000),
        },
        fee: PayoutMethodFee {
            percentage: Money::from_units(20_000),
            min: Money::from_units(0),
            max: Some(Money::from_units(20_000_000)),
        },
    };
    proof {
        assert(m@ =~= paypal_intl_model(cv));
    }
    m
}

/// The catalog a product snapshot yields: the three first-party
/// methods at the head, then the kept products, converted and sorted
/// by the catalog order. A function of the snapshot and the country
/// table alone, so two refreshes over the same snapshot produce the
/// identical ordering.
pub open spec fn spec_catalog(ps: Seq<ProductModel>, intl: Seq<Seq<char>>) -> Seq<MethodModel> {
    seq![paypal_us_model(), venmo_model(), paypal_intl_model(intl)] + isort_by(
        method_order(),
        convert_products(ps),
    )
}

/// Builds the catalog from a product snapshot and the list of
/// non-US country codes for the international method.
pub fn build_catalog(products: &Vec<Product>, intl_countries: Vec<String>) -> (r: Vec<
    PayoutMethod,
>)
    ensures
        method_models(r@) == spec_catalog(product_models(products@), intl_countries.deep_view()),
{
    let ghost cv = intl_countries.deep_view();
    let converted = convert_all(products);
    let mut methods = sort_methods(converted);
    methods.insert(0, make_paypal_us());
    methods.insert(1, make_venmo());
    methods.insert(2, make_paypal_intl(intl_countries));
    proof {
        assert(method_models(methods@) =~= spec_catalog(product_models(products@), cv));
    }
    methods
}

/// The two-letter code at one position of the ISO 3166-1 table.
pub uninterp spec fn iso_alpha2_of(i: int) -> Seq<char>;

/// The whole ISO table, position by position: a fixed sequence, so
/// every reading of the table yields the same country list.
pub open spec fn iso_table() -> Seq<Seq<char>> {
    Seq::new(249, |i: int| iso_alpha2_of(i))
}

/// Relies on rust_iso3166's `ALL` table: 249 listed countries, the
/// `alpha2` field of the entry at position `i` being its two-letter
/// code — a constant table, the same in every process.
#[verifier::external_body]
fn iso_alpha2_codes() -> (r: Vec<String>)
    ensures
        r@.len() == 249,
        forall|i: int| 0 <= i < r@.len() ==> (#[trigger] r@[i])@ == iso_alpha2_of(i),
        forall|i: int| 0 <= i < r@.len() ==> (#[trigger] r@[i])@.len() == 2,
{
    rust_iso3166::ALL.iter().map(|x| x.alpha2.to_string()).collect()
}

/// The country codes with `US` removed, in table order.
pub open spec fn except_us(s: Seq<Seq<char>>) -> Seq<Seq<char>>
    decreases s.len(),
{
    if s.len() == 0 {
        Seq::empty()
    } else {
        except_us(s.drop_last()) + if s.last() == "US"@ {
            Seq::empty()
        } else {
            seq![s.last()]
        }
    }
}

/// `US` never survives the filter.
pub proof fn lemma_except_us_no_us(s: Seq<Seq<char>>)
    ensures
        !except_us(s).contains("US"@),
    decreases s.len(),
{
    if s.len() > 0 {
        lemma_except_us_no_us(s.drop_last());
        let r = except_us(s);
        let prev = except_us(s.drop_last());
        assert forall|k: int| 0 <= k < r.len() implies r[k] != "US"@ by {
            if k < prev.len() {
                assert(r[k] == prev[k]);
                assert(prev.contains(prev[k]));
            } else {
                assert(r[k] == s.last());
            }
        }
    }
}

/// Keeps every code other than `US`.
pub fn countries_except_us(codes: &Vec<String>) -> (r: Vec<String>)
    ensures
        r.deep_view() == except_us(codes.deep_view()),
{
    let mut r: Vec<String> = Vec::new();
    let n = codes.len();
    for i in 0..n
        invariant
            n == codes@.len(),
            r.deep_view() =~= except_us(codes.deep_view().take(i as int)),
    {
        proof {
            assert(codes.deep_view().take(i as int + 1).drop_last() =~= codes.deep_view().take(
                i as int,
            ));
            assert(codes.deep_view().take(i as int + 1).last() == codes@[i as int]@);
        }
        if !str_eq(codes[i].as_str(), "US") {
            let ghost pre = r.deep_view();
            r.push(codes[i].clone());
            proof {
                assert(r.deep_view() =~= pre.push(codes@[i as int]@));
                assert(r.deep_view() =~= except_us(codes.deep_view().take(i as int + 1)));
            }
        } else {
            proof {
                assert(r.deep_view() =~= except_us(codes.deep_view().take(i as int + 1)));
            }
        }
    }
    proof {
        assert(codes.deep_view().take(n as int) =~= codes.deep_view());
    }
    r
}

/// One full catalog refresh from a product snapshot: the country
/// table comes from the ISO listing with `US` removed. The result is
/// a function of the snapshot alone — the ISO table is a constant —
/// so two independent refreshes over one snapshot are identical.
pub fn refreshed_catalog(products: &Vec<Product>) -> (r: Vec<PayoutMethod>)
    ensures
        method_models(r@) == spec_catalog(product_models(products@), except_us(iso_table())),
{
    let all = iso_alpha2_codes();
    proof {
        assert(all.deep_view() =~= iso_table());
    }
    let intl = countries_except_us(&all);
    let r = build_catalog(products, intl);
    r
}

/// The cached catalog with its absolute expiry, replaced wholesale on
/// each successful refresh.
pub struct CatalogCache {
    cached: Option<(Vec<PayoutMethod>, i64)>,
}

impl CatalogCache {
    /// The cached entries' models and expiry, if a catalog is held.
    pub closed spec fn spec_cached(self) -> Option<(Seq<MethodModel>, i64)> {
        match self.cached {
            Some((v, e)) => Some((method_models(v@), e)),
            None => None,
        }
    }

    /// True iff a cached catalog exists and is fresh at `now`.
    pub open spec fn spec_valid(self, now: i64) -> bool {
        self.spec_cached() matches Some(pair) && pair.1 >= now
    }

    /// An empty cache: the first request must refresh.
    pub fn new() -> (r: CatalogCache)
        ensures
            r.spec_cached() is None,
    {
        CatalogCache { cached: None }
    }

    /// Returns a copy of the cached catalog exactly when it is still
    /// fresh at `now`; `None` demands a refresh.
    pub fn get_valid(&self, now: i64) -> (r: Option<Vec<PayoutMethod>>)
        ensures
            r is Some <==> self.spec_valid(now),
            self.spec_valid(now) ==> method_models(r->Some_0@) == self.spec_cached()->Some_0.0,
    {
        match &self.cached {
            Some((options, expires_at)) => {
                if *expires_at >= now {
                    Some(clone_method_vec(options))
                } else {
                    None
                }
            },
            None => None,
        }
    }

    /// Stores a refreshed catalog, fresh for the six-hour window.
    pub fn store(&mut self, options: Vec<PayoutMethod>, now: i64)
        requires
            now + CATALOG_TTL_SECONDS <= i64::MAX,
        ensures
            final(self).spec_cached() == Some(
                (method_models(options@), (now + CATALOG_TTL_SECONDS) as i64),
            ),
            final(self).spec_valid(now),
    {
        self.cached = Some((options, now + CATALOG_TTL_SECONDS));
    }
}

/// Law: the catalog never includes a deny-listed identifier, and a
/// fixed-interval entry always derives from a kept product that
/// supports USD.
pub proof fn lemma_catalog_never_denied(ps: Seq<ProductModel>, intl: Seq<Seq<char>>, k: int)
    requires
        0 <= k < spec_catalog(ps, intl).len(),
    ensures
        !denied_id(spec_catalog(ps, intl)[k].id),
        spec_catalog(ps, intl)[k].interval matches IntervalModel::Fixed { .. } ==> exists|j: int|
            0 <= j < ps.len() && product_included(ps[j]) && ps[j].currency_codes.contains("USD"@)
                && spec_catalog(ps, intl)[k] == convert_product(ps[j]),
{
    let cat = spec_catalog(ps, intl);
    let converted = convert_products(ps);
    let sorted = isort_by(method_order(), converted);
    lemma_method_order_valid();
    lemma_isort_by_ensures(method_order(), converted);
    if k < 3 {
        lemma_synthetic_ids_not_denied(intl);
    } else {
        let y = cat[k];
        assert(y == sorted[k - 3]);
        assert(sorted.contains(y));
        lemma_same_elems(sorted, converted, y);
        let m = choose|m: int| 0 <= m < converted.len() && converted[m] == y;
        lemma_convert_products_elems(ps, m);
        let j = choose|j: int|
            0 <= j < ps.len() && product_included(ps[j]) && converted[m] == convert_product(
                ps[j],
            );
        assert(!denied_id(ps[j].id));
        assert(y.id == ps[j].id);
        if y.interval matches IntervalModel::Fixed { .. } {
            assert(ps[j].skus.len() > 1);
            assert(ps[j].currency_codes.contains("USD"@));
        }
    }
}

/// Every converted entry derives from a kept product.
pub proof fn lemma_convert_products_elems(ps: Seq<ProductModel>, k: int)
    requires
        0 <= k < convert_products(ps).len(),
    ensures
        exists|j: int|
            0 <= j < ps.len() && product_included(ps[j]) && convert_products(ps)[k]
                == convert_product(ps[j]),
    decreases ps.len(),
{
    let r = convert_products(ps);
    let prev = convert_products(ps.drop_last());
    if k < prev.len() {
        lemma_convert_products_elems(ps.drop_last(), k);
        let j = choose|j: int|
            0 <= j < ps.drop_last().len() && product_included(ps.drop_last()[j])
                && prev[k] == convert_product(ps.drop_last()[j]);
        assert(ps.drop_last()[j] == ps[j]);
        assert(r[k] == prev[k]);
        assert(0 <= j < ps.len() && product_included(ps[j]) && r[k] == convert_product(ps[j]));
    } else {
        assert(product_included(ps.last()));
        assert(r[k] == convert_product(ps.last()));
        let j = ps.len() - 1;
        assert(0 <= j < ps.len() && product_included(ps[j]) && r[k] == convert_product(ps[j]));
    }
}

/// The three first-party identifiers are not on the deny-list.
proof fn lemma_synthetic_ids_not_denied(intl: Seq<Seq<char>>)
    ensures
        !denied_id(paypal_us_model().id),
        !denied_id(venmo_model().id),
        !denied_id(paypal_intl_model(intl).id),
{
    reveal_strlit("paypal_us");
    reveal_strlit("venmo");
    reveal_strlit("paypal_in");
    reveal_strlit("A2J05SWPI2QG");
    reveal_strlit("1UOOSHUUYTAM");
    reveal_strlit("5EVJN47HPDFT");
    reveal_strlit("NI9M4EVAVGFJ");
    reveal_strlit("VLY29QHTMNGT");
    reveal_strlit("7XU98H109Y3A");
    reveal_strlit("0CGEDFP2UIKV");
    reveal_strlit("PDYLQU0K073Y");
    reveal_strlit("HCS5Z7O2NV5G");
    reveal_strlit("IY1VMST1MOXS");
    reveal_strlit("VRPZLJ7HCA8X");
    reveal_strlit("GWQQS5RM8IZS");
    reveal_strlit("896MYD4SGOGZ");
    reveal_strlit("PWLEN1VZGMZA");
    reveal_strlit("A2VRM96J5K5W");
    reveal_strlit("HV9ICIM3JT7P");
    reveal_strlit("K2KLSPVWC2Q4");
    reveal_strlit("HRBRQLLTDF95");
    reveal_strlit("UUBYLZVK7QAB");
    reveal_strlit("BH8W3XEDEOJN");
    reveal_strlit("7WGE043X1RYQ");
    reveal_strlit("2B13MHUZZVTF");
    reveal_strlit("JN6R44P86EYX");
    reveal_strlit("DA8H43GU84SO");
    reveal_strlit("QK2XAQHSDEH4");
    reveal_strlit("J7K1IQFS76DK");
    reveal_strlit("NL4JQ2G7UPRZ");
    reveal_strlit("OEFTMSBA5ELH");
    reveal_strlit("A3CQK6UHNV27");
    assert("paypal_us"@.len() == 9);
    assert("venmo"@.len() == 5);
    assert("paypal_in"@.len() == 9);
    assert("A2J05SWPI2QG"@.len() == 12);
    assert("1UOOSHUUYTAM"@.len() == 12);
    assert("5EVJN47HPDFT"@.len() == 12);
    assert("NI9M4EVAVGFJ"@.len() == 12);
    assert("VLY29QHTMNGT"@.len() == 12);
    assert("7XU98H109Y3A"@.len() == 12);
    assert("0CGEDFP2UIKV"@.len() == 12);
    assert("PDYLQU0K073Y"@.len() == 12);
    assert("HCS5Z7O2NV5G"@.len() == 12);
    assert("IY1VMST1MOXS"@.len() == 12);
    assert("VRPZLJ7HCA8X"@.len() == 12);
    assert("GWQQS5RM8IZS"@.len() == 12);
    assert("896MYD4SGOGZ"@.len() == 12);
    assert("PWLEN1VZGMZA"@.len() == 12);
    assert("A2VRM96J5K5W"@.len() == 12);
    assert("HV9ICIM3JT7P"@.len() == 12);
    assert("K2KLSPVWC2Q4"@.len() == 12);
    assert("HRBRQLLTDF95"@.len() == 12);
    assert("UUBYLZVK7QAB"@.len() == 12);
    assert("BH8W3XEDEOJN"@.len() == 12);
    assert("7WGE043X1RYQ"@.len() == 12);
    assert("2B13MHUZZVTF"@.len() == 12);
    assert("JN6R44P86EYX"@.len() == 12);
    assert("DA8H43GU84SO"@.len() == 12);
    assert("QK2XAQHSDEH4"@.len() == 12);
    assert("J7K1IQFS76DK"@.len() == 12);
    assert("NL4JQ2G7UPRZ"@.len() == 12);
    assert("OEFTMSBA5ELH"@.len() == 12);
    assert("A3CQK6UHNV27"@.len() == 12);
}

/// Law: the catalog order is deterministic — the three first-party
/// methods stand at the head in their fixed order, and from the third
/// position on the entries ascend in the catalog order, up-ranked
/// identifiers before unlisted ones and those before down-ranked
/// ones, names breaking ties; the tail holds exactly the converted
/// products. Together with `build_catalog`'s contract, which pins the
/// built list to `spec_catalog` of its inputs, two independent
/// refreshes over one upstream snapshot order identically.
pub proof fn lemma_catalog_ordering(ps: Seq<ProductModel>, intl: Seq<Seq<char>>)
    ensures
        spec_catalog(ps, intl).len() == 3 + convert_products(ps).len(),
        spec_catalog(ps, intl)[0] == paypal_us_model(),
        spec_catalog(ps, intl)[1] == venmo_model(),
        spec_catalog(ps, intl)[2] == paypal_intl_model(intl),
        forall|i: int, j: int|
            3 <= i < j < spec_catalog(ps, intl).len() ==> method_leq(
                #[trigger] spec_catalog(ps, intl)[i],
                #[trigger] spec_catalog(ps, intl)[j],
            ),
        spec_catalog(ps, intl).skip(3).to_multiset() == convert_products(ps).to_multiset(),
{
    let cat = spec_catalog(ps, intl);
    let converted = convert_products(ps);
    let sorted = isort_by(method_order(), converted);
    lemma_method_order_valid();
    lemma_isort_by_ensures(method_order(), converted);
    assert(cat.skip(3) =~= sorted);
    assert forall|i: int, j: int| 3 <= i < j < cat.len() implies method_leq(
        #[trigger] cat[i],
        #[trigger] cat[j],
    ) by {
        assert(sorted_by_leq(method_order(), sorted));
        assert((method_order())(sorted[i - 3], sorted[j - 3]));
    }
}

} // verus!
