//! The data shapes of the payout-method catalog: the upstream product
//! as the gateway reports it, the payout method offered to users, and
//! the mathematical model of each.
//!
//! Every type has a model made of sequences and plain values, reached
//! through its view; contracts speak of models, so that two values
//! with equal models are the same method for every caller.

use vstd::prelude::*;
use crate::money::Money;

verus! {

/// Which rail pays a method out.
#[derive(Clone, Copy, PartialEq, Eq, Structural, Debug)]
pub enum PayoutMethodKind {
    PayPal,
    Venmo,
    Tremendous,
}

/// One priced tier of an upstream product.
#[derive(Clone, Copy, PartialEq, Eq, Structural, Debug)]
pub struct Sku {
    pub min: Money,
    pub max: Money,
}

/// An image attached to an upstream product; only card-typed images
/// are surfaced.
pub struct ProductImage {
    pub src: String,
    pub is_card: bool,
}

/// An upstream product from the third-party gateway's catalog, already
/// decoded into plain values.
pub struct Product {
    pub id: String,
    pub category: String,
    pub name: String,
    pub skus: Vec<Sku>,
    pub currency_codes: Vec<String>,
    pub countries: Vec<String>,
    pub images: Vec<ProductImage>,
}

/// The amounts a payout method accepts: a continuous range, or a fixed
/// list of denominations sorted ascending.
pub enum PayoutInterval {
    Standard { min: Money, max: Money },
    Fixed { values: Vec<Money> },
}

/// The fee a payout method charges.
#[derive(Clone, Copy, PartialEq, Eq, Debug)]
pub struct PayoutMethodFee {
    /// The proportional part, as a fixed-point ratio scaled like money:
    /// four percent is `0.04` whole units.
    pub percentage: Money,
    pub min: Money,
    pub max: Option<Money>,
}

/// One entry of the catalog offered to users.
pub struct PayoutMethod {
    pub id: String,
    pub kind: PayoutMethodKind,
    pub name: String,
    pub supported_countries: Vec<String>,
    pub image_url: Option<String>,
    pub interval: PayoutInterval,
    pub fee: PayoutMethodFee,
}

/// Model of a product image.
#[verifier::ext_equal]
pub struct ImageModel {
    pub src: Seq<char>,
    pub is_card: bool,
}

/// Model of an upstream product.
#[verifier::ext_equal]
pub struct ProductModel {
    pub id: Seq<char>,
    pub category: Seq<char>,
    pub name: Seq<char>,
    pub skus: Seq<Sku>,
    pub currency_codes: Seq<Seq<char>>,
    pub countries: Seq<Seq<char>>,
    pub images: Seq<ImageModel>,
}

/// Model of a payout interval.
#[verifier::ext_equal]
pub enum IntervalModel {
    Standard { min: Money, max: Money },
    Fixed { values: Seq<Money> },
}

/// Model of a catalog entry.
#[verifier::ext_equal]
pub struct MethodModel {
    pub id: Seq<char>,
    pub kind: PayoutMethodKind,
    pub name: Seq<char>,
    pub countries: Seq<Seq<char>>,
    pub image_url: Option<Seq<char>>,
    pub interval: IntervalModel,
    pub fee: PayoutMethodFee,
}

impl View for ProductImage {
    type V = ImageModel;

    open spec fn view(&self) -> ImageModel {
        ImageModel { src: self.src@, is_card: self.is_card }
    }
}

impl View for Product {
    type V = ProductModel;

    open spec fn view(&self) -> ProductModel {
        ProductModel {
            id: self.id@,
            category: self.category@,
            name: self.name@,
            skus: self.skus@,
            currency_codes: self.currency_codes.deep_view(),
            countries: self.countries.deep_view(),
            images: Seq::new(self.images@.len(), |i: int| self.images@[i]@),
        }
    }
}

impl View for PayoutInterval {
    type V = IntervalModel;

    open spec fn view(&self) -> IntervalModel {
        match self {
            PayoutInterval::Standard { min, max } => IntervalModel::Standard {
                min: *min,
                max: *max,
            },
            PayoutInterval::Fixed { values } => IntervalModel::Fixed { values: values@ },
        }
    }
}

impl View for PayoutMethod {
    type V = MethodModel;

    open spec fn view(&self) -> MethodModel {
        MethodModel {
            id: self.id@,
            kind: self.kind,
            name: self.name@,
            countries: self.supported_countries.deep_view(),
            image_url: match &self.image_url {
                Some(s) => Some(s@),
                None => None,
            },
            interval: self.interval@,
            fee: self.fee,
        }
    }
}

/// The models of a sequence of catalog entries.
pub open spec fn method_models(s: Seq<PayoutMethod>) -> Seq<MethodModel> {
    Seq::new(s.len(), |i: int| s[i]@)
}

/// The models of a sequence of products.
pub open spec fn product_models(s: Seq<Product>) -> Seq<ProductModel> {
    Seq::new(s.len(), |i: int| s[i]@)
}

/// The views of a sequence of strings.
pub open spec fn string_views(s: Seq<String>) -> Seq<Seq<char>> {
    Seq::new(s.len(), |i: int| s[i]@)
}

/// Copies a list of strings, keeping every element.
pub fn clone_string_vec(v: &Vec<String>) -> (r: Vec<String>)
    ensures
        r@ == v@,
{
    let mut r: Vec<String> = Vec::new();
    let n = v.len();
    for i in 0..n
        invariant
            n == v@.len(),
            r@ =~= v@.take(i as int),
    {
        r.push(v[i].clone());
        proof {
            assert(r@ =~= v@.take(i as int + 1));
        }
    }
    proof {
        assert(v@.take(n as int) =~= v@);
    }
    r
}

/// Copies a list of amounts, keeping every element.
pub fn clone_money_vec(v: &Vec<Money>) -> (r: Vec<Money>)
    ensures
        r@ == v@,
{
    let mut r: Vec<Money> = Vec::new();
    let n = v.len();
    for i in 0..n
        invariant
            n == v@.len(),
            r@ =~= v@.take(i as int),
    {
        r.push(v[i]);
        proof {
            assert(r@ =~= v@.take(i as int + 1));
        }
    }
    proof {
        assert(v@.take(n as int) =~= v@);
    }
    r
}

impl Clone for PayoutInterval {
    /// The copy accepts exactly the same amounts.
    fn clone(&self) -> (r: Self)
        ensures
            r@ == self@,
    {
        match self {
            PayoutInterval::Standard { min, max } => PayoutInterval::Standard {
                min: *min,
                max: *max,
            },
            PayoutInterval::Fixed { values } => PayoutInterval::Fixed {
                values: clone_money_vec(values),
            },
        }
    }
}

impl Clone for PayoutMethod {
    /// The copy has the same model: the same method for every caller.
    fn clone(&self) -> (r: Self)
        ensures
            r@ == self@,
    {
        let r = PayoutMethod {
            id: self.id.clone(),
            kind: self.kind,
            name: self.name.clone(),
            supported_countries: clone_string_vec(&self.supported_countries),
            image_url: match &self.image_url {
                Some(s) => Some(s.clone()),
                None => None,
            },
            interval: self.interval.clone(),
            fee: self.fee,
        };
        proof {
            assert(r@ =~= self@);
        }
        r
    }
}

/// Copies a list of catalog entries, keeping every model.
pub fn clone_method_vec(v: &Vec<PayoutMethod>) -> (r: Vec<PayoutMethod>)
    ensures
        method_models(r@) == method_models(v@),
{
    let mut r: Vec<PayoutMethod> = Vec::new();
    let n = v.len();
    for i in 0..n
        invariant
            n == v@.len(),
            method_models(r@) =~= method_models(v@.take(i as int)),
    {
        let x = v[i].clone();
        proof {
            assert(x@ == v@[i as int]@);
        }
        let ghost pre = r@;
        r.push(x);
        proof {
            assert(r@ == pre.push(x));
            assert(method_models(pre).len() == pre.len());
            assert(method_models(v@.take(i as int)).len() == i as int);
            assert(pre.len() == i as int);
            assert forall|k: int|
                0 <= k < r@.len() implies method_models(r@)[k] == method_models(
                v@.take(i as int + 1),
            )[k] by {
                if k < i as int {
                    assert(method_models(pre)[k] == method_models(v@.take(i as int))[k]);
                    assert(r@[k] == pre[k]);
                } else {
                    assert(r@[k] == x);
                    assert(v@.take(i as int + 1)[k] == v@[i as int]);
                }
            }
            assert(method_models(r@) =~= method_models(v@.take(i as int + 1)));
        }
    }
    proof {
        assert(v@.take(n as int) =~= v@);
        assert(method_models(v@.take(n as int)) =~= method_models(v@));
    }
    r
}

} // verus!
