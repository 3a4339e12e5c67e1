//! Values that may be absent, and lookups that answer with `None` instead of
//! failing: user accounts with optional fields, connection settings with
//! defaults, a product catalog, and numbers read from text.

use crate::text::{find_char, parse_i32, trim, trimmed, written_i32};
use std::collections::HashMap;
use vstd::prelude::*;
use vstd::std_specs::hash::spec_hash_map_iter;
use vstd::std_specs::iter::IteratorSpec;
use vstd::string::StrSliceExecFns;
use vstd::utf8::encode_utf8;

verus! {

/// A user account. Everything but the identifier and the name may be missing.
#[derive(Debug, Clone, PartialEq)]
pub struct User {
    pub id: u32,
    pub name: String,
    pub email: Option<String>,
    pub phone: Option<String>,
    pub age: Option<u32>,
}

/// The part of `email` between its first `@` and its second, or its end
/// where there is no second; absent where `email` has no `@`.
pub open spec fn domain_of(email: Seq<char>) -> Option<Seq<char>> {
    match email.index_of_first('@') {
        Some(at) => {
            let rest = email.skip(at + 1);
            match rest.index_of_first('@') {
                Some(end) => Some(rest.take(end)),
                None => Some(rest),
            }
        },
        None => None,
    }
}

impl User {
    /// A user of whom only the identifier and the name are known.
    pub fn new(id: u32, name: String) -> (user: User)
        ensures
            user == (User { id, name, email: None, phone: None, age: None }),
    {
        User { id, name, email: None, phone: None, age: None }
    }

    /// The name for display: `User Name:` followed by the name. Absent where
    /// the name is empty or is white space only.
    pub fn get_display_name(&self) -> (display: Option<String>)
        ensures
            match display {
                Some(shown) => trimmed(self.name@).len() > 0 && shown@ == "User Name:"@
                    + self.name@,
                None => trimmed(self.name@).len() == 0,
            },
    {
        if trim(self.name.as_str()).is_empty() {
            None
        } else {
            let mut shown = String::from_str("User Name:");
            shown.append(self.name.as_str());
            Some(shown)
        }
    }

    /// The domain of the email address: what stands between the first `@`
    /// and the next one, or the end. Absent where there is no email address
    /// or no `@` in it.
    pub fn get_email_domain(&self) -> (domain: Option<String>)
        ensures
            match domain {
                Some(text) => self.email matches Some(email) && domain_of(email@) == Some(text@),
                None => self.email matches Some(email) ==> domain_of(email@) is None,
            },
    {
        let email = match &self.email {
            Some(email) => email.as_str(),
            None => {
                return None;
            },
        };
        proof {
            email@.index_of_first_ensures('@');
        }
        let count = email.unicode_len();
        match find_char(email, '@') {
            Some(at) => {
                let rest = email.substring_char(at + 1, count);
                proof {
                    rest@.index_of_first_ensures('@');
                }
                let piece = match find_char(rest, '@') {
                    Some(end) => rest.substring_char(0, end),
                    None => rest,
                };
                Some(String::from_str(piece))
            },
            None => None,
        }
    }

    /// Whether marketing may be sent: only to a user with an email address
    /// whose age is known and is at least 18.
    pub fn can_send_marketing(&self) -> (allowed: bool)
        ensures
            allowed == (self.email is Some && self.age is Some && self.age->0 >= 18),
    {
        match (&self.email, &self.age) {
            (Some(_), Some(age)) if *age >= 18 => true,
            _ => false,
        }
    }
}

/// Settings of a database connection, each of which may be missing.
#[derive(Debug, PartialEq)]
pub struct Config {
    pub database_url: Option<String>,
    pub port: Option<u16>,
    pub api_key: Option<String>,
    pub debug_mode: Option<bool>,
}

/// What is wrong with a configuration, if anything: the missing database
/// address first, then an API key that is missing or shorter than ten bytes.
pub open spec fn complaint_about(config: Config) -> Option<Seq<char>> {
    if config.database_url is None {
        Some("No database url provided"@)
    } else if config.api_key is Some && encode_utf8(config.api_key->0@).len() >= 10 {
        None
    } else {
        Some("Invalid Api Key"@)
    }
}

impl Config {
    /// A configuration in which nothing is set.
    pub fn new() -> (config: Config)
        ensures
            config == (Config { database_url: None, port: None, api_key: None, debug_mode: None }),
    {
        Config { database_url: None, port: None, api_key: None, debug_mode: None }
    }

    /// The port that is set, or 8080.
    pub fn get_database_port(&self) -> (port: u16)
        ensures
            port == (match self.port {
                Some(set) => set,
                None => 8080,
            }),
    {
        match self.port {
            Some(set) => set,
            None => 8080,
        }
    }

    /// The database address that is set, or `localhost:5432`.
    pub fn get_database_url(&self) -> (url: String)
        ensures
            url@ == (match self.database_url {
                Some(set) => set@,
                None => "localhost:5432"@,
            }),
    {
        match &self.database_url {
            Some(set) => set.clone(),
            None => String::from_str("localhost:5432"),
        }
    }

    /// What is wrong with the configuration; absent where it is valid.
    pub fn is_valid(&self) -> (complaint: Option<String>)
        ensures
            match complaint {
                Some(text) => complaint_about(*self) == Some(text@),
                None => complaint_about(*self) is None,
            },
    {
        if self.database_url.is_none() {
            return Some(String::from_str("No database url provided"));
        }
        let short = match &self.api_key {
            Some(key) => key.as_str().as_bytes().len() < 10,
            None => true,
        };
        if short {
            return Some(String::from_str("Invalid Api Key"));
        }
        None
    }
}

/// An item of the catalog.
///
/// `P` is the representation of a price and of a discount rate. The catalog
/// stores and hands out such values and never computes with them.
#[derive(Debug, PartialEq)]
pub struct Product<P> {
    pub id: u32,
    pub name: String,
    pub price: P,
    pub category: Option<String>,
    pub discount: Option<P>,
}

impl<P: Copy> Clone for Product<P> {
    fn clone(&self) -> (copy: Self)
        ensures
            copy == *self,
    {
        let category = match &self.category {
            Some(text) => Some(text.clone()),
            None => None,
        };
        Product {
            id: self.id,
            name: self.name.clone(),
            price: self.price,
            category,
            discount: self.discount,
        }
    }
}

/// Whether `product` is filed under `category`. A product without a category
/// is in no category.
pub open spec fn in_category<P>(product: Product<P>, category: Seq<char>) -> bool {
    product.category matches Some(text) && text@ == category
}

/// The identifiers of the products of `catalog` that are filed under `category`.
pub open spec fn ids_in_category<P>(catalog: Map<u32, Product<P>>, category: Seq<char>) -> Set<
    u32,
> {
    Set::new(|id: u32| catalog.contains_key(id) && in_category(catalog[id], category))
}

/// Whether `found` lists the products of `catalog` that are filed under
/// `category`: each of them once, in any order, and nothing else.
pub open spec fn lists_category<P>(
    catalog: Map<u32, Product<P>>,
    category: Seq<char>,
    found: Seq<&Product<P>>,
) -> bool {
    &&& forall|i: int|
        0 <= i < found.len() ==> {
            &&& ids_in_category(catalog, category).contains((#[trigger] found[i]).id)
            &&& *found[i] == catalog[found[i].id]
        }
    &&& forall|i: int, j: int|
        0 <= i < j < found.len() ==> (#[trigger] found[i]).id != (#[trigger] found[j]).id
    &&& forall|id: u32|
        ids_in_category(catalog, category).contains(id) ==> exists|i: int|
            0 <= i < found.len() && (#[trigger] found[i]).id == id
}

/// Whether `prices` are the prices of the products of `catalog` that are
/// filed under `category`, one price for each such product, in any order.
pub open spec fn prices_in_category<P>(
    catalog: Map<u32, Product<P>>,
    category: Seq<char>,
    prices: Seq<P>,
) -> bool {
    exists|found: Seq<&Product<P>>|
        lists_category(catalog, category, found) && prices == product_prices(found)
}

/// The price of each listed product, in the order of the list.
pub open spec fn product_prices<P>(found: Seq<&Product<P>>) -> Seq<P> {
    found.map_values(|product: &Product<P>| product.price)
}

/// The product that `catalog` files under `id`, if any.
pub open spec fn lookup<P>(catalog: Map<u32, Product<P>>, id: u32) -> Option<Product<P>> {
    if catalog.contains_key(id) {
        Some(catalog[id])
    } else {
        None
    }
}

/// The catalog after `product` is filed under its identifier, in place of
/// whatever was filed there before.
pub open spec fn with_product<P>(catalog: Map<u32, Product<P>>, product: Product<P>) -> Map<
    u32,
    Product<P>,
> {
    catalog.insert(product.id, product)
}

/// The name of the featured product: absent where no identifier is featured,
/// and where the featured identifier names no product of `catalog`.
pub open spec fn featured_name<P>(catalog: Map<u32, Product<P>>, featured: Option<u32>) -> Option<
    String,
> {
    match featured {
        Some(id) => match lookup(catalog, id) {
            Some(product) => Some(product.name),
            None => None,
        },
        None => None,
    }
}

/// The price and the discount rate of product `id`: absent where `catalog`
/// has no such product, and where the product has no discount.
pub open spec fn discount_terms_of<P>(catalog: Map<u32, Product<P>>, id: u32) -> Option<(P, P)> {
    match lookup(catalog, id) {
        Some(product) => match product.discount {
            Some(rate) => Some((product.price, rate)),
            None => None,
        },
        None => None,
    }
}

/// A product catalog, keyed by product identifier, with an optional
/// featured product.
///
/// The featured identifier is not tied to the catalog: it may name a product
/// that was never added.
pub struct Store<P> {
    products: HashMap<u32, Product<P>>,
    featured_product: Option<u32>,
}

impl<P> View for Store<P> {
    type V = Map<u32, Product<P>>;

    closed spec fn view(&self) -> Map<u32, Product<P>> {
        self.products@
    }
}

impl<P> Store<P> {
    #[verifier::type_invariant]
    spec fn filed_under_own_id(&self) -> bool {
        forall|id: u32| #[trigger]
            self.products@.contains_key(id) ==> self.products@[id].id == id
    }

    /// The featured identifier, if one is set.
    pub closed spec fn featured(&self) -> Option<u32> {
        self.featured_product
    }
}

impl<P: Copy> Store<P> {
    /// An empty catalog with no featured product.
    pub fn new() -> (store: Self)
        ensures
            store@ == Map::<u32, Product<P>>::empty(),
            store.featured() is None,
    {
        Store { products: HashMap::new(), featured_product: None }
    }

    /// Files `product` under its identifier. A product that was filed under
    /// that identifier before is replaced.
    pub fn add_product(&mut self, product: Product<P>)
        ensures
            final(self)@ == with_product(old(self)@, product),
            final(self).featured() == old(self).featured(),
    {
        proof {
            use_type_invariant(&*self);
        }
        // The map is taken out while it changes and put back when it is whole.
        let mut products = HashMap::new();
        std::mem::swap(&mut self.products, &mut products);
        products.insert(product.id, product);
        std::mem::swap(&mut self.products, &mut products);
    }

    /// Sets or clears the featured identifier. The catalog is not consulted.
    pub fn set_featured_product(&mut self, featured: Option<u32>)
        ensures
            final(self)@ == old(self)@,
            final(self).featured() == featured,
    {
        proof {
            use_type_invariant(&*self);
        }
        self.featured_product = featured;
    }

    /// A copy of the product filed under `id`, if there is one.
    pub fn find_product(&self, id: u32) -> (found: Option<Product<P>>)
        ensures
            found == lookup(self@, id),
            found matches Some(product) ==> product.id == id,
    {
        proof {
            use_type_invariant(self);
        }
        match self.products.get(&id) {
            Some(product) => Some(product.clone()),
            None => None,
        }
    }

    /// The name of the featured product, if a product is featured and is in
    /// the catalog.
    pub fn get_featured_product_name(&self) -> (name: Option<String>)
        ensures
            name == featured_name(self@, self.featured()),
    {
        match self.featured_product {
            Some(id) => match self.find_product(id) {
                Some(product) => Some(product.name),
                None => None,
            },
            None => None,
        }
    }

    /// The products filed under `category`, each once, in no particular order.
    pub fn find_products_by_category(&self, category: &String) -> (found: Vec<&Product<P>>)
        ensures
            lists_category(self@, category@, found@),
    {
        proof {
            use_type_invariant(self);
        }
        let mut found: Vec<&Product<P>> = Vec::new();
        let ghost order = spec_hash_map_iter(&self.products).remaining();
        for entry in it: self.products.iter()
            invariant
                self.filed_under_own_id(),
                it.seq() == order,
                order == spec_hash_map_iter(&self.products).remaining(),
                it.seq().no_duplicates(),
                forall|i: int|
                    0 <= i < found.len() ==> {
                        &&& ids_in_category(self@, category@).contains((#[trigger] found[i]).id)
                        &&& *found[i] == self@[found[i].id]
                        &&& exists|t: int|
                            0 <= t < it.index() && *(#[trigger] it.seq()[t]).0 == found[i].id
                    },
                forall|i: int, j: int|
                    0 <= i < j < found.len() ==> (#[trigger] found[i]).id != (
                    #[trigger] found[j]).id,
                forall|t: int|
                    0 <= t < it.index() && in_category(*(#[trigger] it.seq()[t]).1, category@)
                        ==> exists|i: int|
                        0 <= i < found.len() && (#[trigger] found[i]).id == *it.seq()[t].0,
        {
            let (id, product) = entry;
            let ghost at = it.index();
            let ghost earlier = found@;
            proof {
                assert(it.seq()[at] == (id, product));
                assert(self.products@.contains_key(*id) && self.products@[*id] == *product);
                assert forall|i: int| 0 <= i < earlier.len() implies (#[trigger] earlier[i]).id
                    != *id by {
                    let t = choose|t: int|
                        0 <= t < at && *(#[trigger] it.seq()[t]).0 == earlier[i].id;
                    if earlier[i].id == *id {
                        assert(self.products@[*it.seq()[t].0] == *it.seq()[t].1);
                        assert(it.seq()[t] == it.seq()[at]);
                    }
                }
            }
            let listed = match &product.category {
                Some(text) => *text == *category,
                None => false,
            };
            if listed {
                found.push(product);
                assert(found@[earlier.len() as int].id == *it.seq()[at].0);
            }
            proof {
                assert forall|i: int| 0 <= i < found.len() implies exists|t: int|
                    0 <= t < at + 1 && *(#[trigger] it.seq()[t]).0 == (#[trigger] found[i]).id by {
                    if i < earlier.len() {
                        let t = choose|t: int|
                            0 <= t < at && *(#[trigger] it.seq()[t]).0 == earlier[i].id;
                        assert(*it.seq()[t].0 == found[i].id);
                    } else {
                        assert(*it.seq()[at].0 == found[i].id);
                    }
                }
                assert forall|t: int|
                    0 <= t < at + 1 && in_category(
                        *(#[trigger] it.seq()[t]).1,
                        category@,
                    ) implies exists|i: int|
                    0 <= i < found.len() && (#[trigger] found[i]).id == *it.seq()[t].0 by {
                    if t < at {
                        let i = choose|i: int|
                            0 <= i < earlier.len() && (#[trigger] earlier[i]).id == *it.seq()[t].0;
                        assert(found[i].id == *it.seq()[t].0);
                    } else {
                        assert(found[earlier.len() as int].id == *it.seq()[t].0);
                    }
                }
            }
        }
        proof {
            assert forall|id: u32| ids_in_category(self@, category@).contains(id) implies exists|
                i: int,
            |
                0 <= i < found.len() && (#[trigger] found[i]).id == id by {
                let listed = (&id, &self.products@[id]);
                assert(order.contains(listed));
                let t = order.index_of(listed);
                assert(order[t] == listed);
                assert(in_category(*order[t].1, category@));
            }
        }
        found
    }

    /// The price and the discount rate of the product filed under `id`.
    ///
    /// Absent where there is no such product, and where the product has no
    /// discount. The rate is handed out as stored, whatever its range.
    pub fn discount_terms(&self, id: u32) -> (terms: Option<(P, P)>)
        ensures
            terms == discount_terms_of(self@, id),
    {
        match self.find_product(id) {
            Some(product) => match product.discount {
                Some(rate) => Some((product.price, rate)),
                None => None,
            },
            None => None,
        }
    }

    /// The prices of the products filed under `category`, one for each such
    /// product, in no particular order.
    ///
    /// Absent where no product is filed under `category`, so that a list that
    /// is handed out is never empty.
    pub fn category_prices(&self, category: &String) -> (prices: Option<Vec<P>>)
        ensures
            match prices {
                Some(list) => list.len() > 0 && prices_in_category(self@, category@, list@),
                None => ids_in_category(self@, category@) == Set::<u32>::empty(),
            },
    {
        let found = self.find_products_by_category(category);
        if found.len() == 0 {
            assert(ids_in_category(self@, category@) =~= Set::<u32>::empty());
            return None;
        }
        let mut list: Vec<P> = Vec::new();
        let mut at: usize = 0;
        while at < found.len()
            invariant
                at <= found.len(),
                list@ == product_prices(found@.take(at as int)),
            decreases found.len() - at,
        {
            list.push(found[at].price);
            proof {
                assert(found@.take(at + 1) =~= found@.take(at as int).push(found@[at as int]));
                assert(product_prices(found@.take(at + 1)) =~= product_prices(
                    found@.take(at as int),
                ).push(found@[at as int].price));
            }
            at += 1;
        }
        proof {
            assert(found@.take(found.len() as int) =~= found@);
        }
        Some(list)
    }
}

/// Nothing is found in an empty catalog.
pub proof fn lemma_empty_catalog_finds_nothing<P>(id: u32)
    ensures
        lookup(Map::<u32, Product<P>>::empty(), id) is None,
{
}

/// A product that was added is found under its identifier, equal to what was
/// added, and other identifiers are not affected.
pub proof fn lemma_added_product_is_found<P>(
    catalog: Map<u32, Product<P>>,
    product: Product<P>,
    other: u32,
)
    ensures
        lookup(with_product(catalog, product), product.id) == Some(product),
        other != product.id ==> lookup(with_product(catalog, product), other) == lookup(
            catalog,
            other,
        ),
{
}

/// Of two products added under one identifier, the later one is found.
pub proof fn lemma_last_added_wins<P>(
    catalog: Map<u32, Product<P>>,
    first: Product<P>,
    second: Product<P>,
)
    requires
        first.id == second.id,
    ensures
        lookup(with_product(with_product(catalog, first), second), first.id) == Some(second),
        with_product(with_product(catalog, first), second) == with_product(catalog, second),
{
    assert(with_product(with_product(catalog, first), second) =~= with_product(catalog, second));
}

/// Discount terms are absent exactly where the product is missing or has no
/// discount; otherwise they are the product's price and rate.
pub proof fn lemma_discount_terms_absence<P>(catalog: Map<u32, Product<P>>, id: u32)
    ensures
        !catalog.contains_key(id) ==> discount_terms_of(catalog, id) is None,
        catalog.contains_key(id) && catalog[id].discount is None ==> discount_terms_of(
            catalog,
            id,
        ) is None,
        catalog.contains_key(id) && catalog[id].discount is Some ==> discount_terms_of(catalog, id)
            == Some((catalog[id].price, catalog[id].discount->0)),
{
}

/// The featured name is absent where nothing is featured, and where the
/// featured identifier names no product.
pub proof fn lemma_featured_name_absence<P>(catalog: Map<u32, Product<P>>, featured: Option<u32>)
    ensures
        featured is None ==> featured_name(catalog, featured) is None,
        featured matches Some(id) && !catalog.contains_key(id) ==> featured_name(
            catalog,
            featured,
        ) is None,
        featured matches Some(id) && catalog.contains_key(id) ==> featured_name(catalog, featured)
            == Some(catalog[featured->0].name),
{
}

/// A list of a category's products is empty exactly where no product is filed
/// under the category.
pub proof fn lemma_category_list_empty<P>(
    catalog: Map<u32, Product<P>>,
    category: Seq<char>,
    found: Seq<&Product<P>>,
)
    requires
        lists_category(catalog, category, found),
    ensures
        found.len() == 0 <==> ids_in_category(catalog, category) == Set::<u32>::empty(),
{
    if found.len() == 0 {
        assert(ids_in_category(catalog, category) =~= Set::<u32>::empty());
    } else {
        assert(ids_in_category(catalog, category).contains(found[0].id));
    }
}

/// Reads `s` as a decimal integer, white space at its start and end aside.
///
/// Absent where what remains is not an optional sign followed by digits, and
/// where the integer does not fit in an `i32`.
pub fn parse_number(s: &str) -> (number: Option<i32>)
    ensures
        number == written_i32(trimmed(s@)),
{
    parse_i32(trim(s))
}

/// The dividend and the divisor of a division that has a result: absent
/// where the divisor is zero.
pub fn division_operands(a: i32, b: i32) -> (operands: Option<(i32, i32)>)
    ensures
        operands == (if b == 0 {
            None
        } else {
            Some((a, b))
        }),
{
    if b == 0 {
        None
    } else {
        Some((a, b))
    }
}

/// The dividend and the divisor that two texts write, for a division that has
/// a result: absent where either text is not a number, and where the divisor
/// is zero.
pub open spec fn written_operands(input1: Seq<char>, input2: Seq<char>) -> Option<(i32, i32)> {
    match (written_i32(trimmed(input1)), written_i32(trimmed(input2))) {
        (Some(a), Some(b)) => if b == 0 {
            None
        } else {
            Some((a, b))
        },
        _ => None,
    }
}

/// Reads a dividend and a divisor and hands them out for division.
///
/// Absent as soon as one step fails: the first text is not a number, the
/// second is not, or the divisor is zero.
pub fn parse_operands(input1: &str, input2: &str) -> (operands: Option<(i32, i32)>)
    ensures
        operands == written_operands(input1@, input2@),
{
    let num1 = parse_number(input1)?;
    let num2 = parse_number(input2)?;
    division_operands(num1, num2)
}

} // verus!
