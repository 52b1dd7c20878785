//! Per-spacecraft configuration: products, their APIDs and granule lengths,
//! and which products are packed into which RDRs.
use vstd::prelude::*;
use vstd::string::StringExecFns;

use crate::error::Error;

verus! {

#[derive(Debug, Clone)]
pub struct SatSpec {
    /// Satellite id, e.g., npp, j01, etc ...
    pub id: String,
    /// Satellite short name, e.g., NPP.
    pub short_name: String,
    /// Mission base time as IET microseconds; the same for all JPSS spacecraft.
    pub base_time: u64,
    /// Mission, e.g., S-NPP/JPSS
    pub mission: String,
}

#[derive(Debug, Clone)]
pub struct ApidSpec {
    pub num: u16,
    pub name: String,
    pub max_expected: usize,
}

#[derive(Debug, Clone)]
pub struct ProductSpec {
    /// The product identifier, e.g., RVIRS, RNSCA, etc...
    pub product_id: String,
    pub sensor: String,
    /// Collection short name, e.g., VIIRS-SCIENCE-RDR.
    pub short_name: String,
    /// Data type, e.g., SCIENCE, DIARY, etc ...
    pub type_id: String,
    /// Granule length in microseconds.
    pub gran_len: u64,
    pub apids: Vec<ApidSpec>,
}

#[derive(Debug, Clone, PartialEq, Eq)]
pub struct RdrSpec {
    /// Data product id of the primary product.
    pub product: String,
    /// Ids of the products whose overlapping granules go into the same file.
    pub packed_with: Vec<String>,
}

/// Per-satellite RDR configuration.
#[derive(Debug, Clone)]
pub struct Config {
    pub origin: String,
    pub mode: String,
    pub distributor: String,
    pub satellite: SatSpec,
    pub products: Vec<ProductSpec>,
    pub rdrs: Vec<RdrSpec>,
}

impl ApidSpec {
    /// Whether two specs hold the same values.
    pub open spec fn same(&self, o: &ApidSpec) -> bool {
        &&& self.num == o.num
        &&& self.name@ == o.name@
        &&& self.max_expected == o.max_expected
    }

    /// A copy holding the same values.
    pub fn copy(&self) -> (r: ApidSpec)
        ensures
            r.same(self),
    {
        ApidSpec { num: self.num, name: self.name.clone(), max_expected: self.max_expected }
    }
}

impl ProductSpec {
    /// Whether two specs hold the same values.
    pub open spec fn same(&self, o: &ProductSpec) -> bool {
        &&& self.product_id@ == o.product_id@
        &&& self.sensor@ == o.sensor@
        &&& self.short_name@ == o.short_name@
        &&& self.type_id@ == o.type_id@
        &&& self.gran_len == o.gran_len
        &&& self.apids@.len() == o.apids@.len()
        &&& forall|i: int| 0 <= i < self.apids@.len() ==> (#[trigger] self.apids@[i]).same(&o.apids@[i])
    }

    /// A copy holding the same values.
    pub fn copy(&self) -> (r: ProductSpec)
        ensures
            r.same(self),
    {
        let mut apids: Vec<ApidSpec> = Vec::new();
        let mut i: usize = 0;
        while i < self.apids.len()
            invariant
                i <= self.apids@.len(),
                apids@.len() == i,
                forall|m: int| 0 <= m < i ==> (#[trigger] apids@[m]).same(&self.apids@[m]),
            decreases self.apids@.len() - i,
        {
            apids.push(self.apids[i].copy());
            i = i + 1;
        }
        ProductSpec {
            product_id: self.product_id.clone(),
            sensor: self.sensor.clone(),
            short_name: self.short_name.clone(),
            type_id: self.type_id.clone(),
            gran_len: self.gran_len,
            apids,
        }
    }

    /// Whether `apid` is configured for this product.
    pub open spec fn has_apid(&self, apid: u16) -> bool {
        exists|i: int| 0 <= i < self.apids@.len() && (#[trigger] self.apids@[i]).num == apid
    }

    /// The spec of `apid`: the first one configured with that number.
    #[must_use]
    pub fn get_apid(&self, apid: u16) -> (r: Option<ApidSpec>)
        ensures
            r is Some <==> self.has_apid(apid),
            r is Some ==> exists|i: int|
                0 <= i < self.apids@.len() && r->Some_0.same(&self.apids@[i]) && (forall|j: int|
                    0 <= j < i ==> (#[trigger] self.apids@[j]).num != apid),
    {
        let mut i: usize = 0;
        while i < self.apids.len()
            invariant
                i <= self.apids@.len(),
                forall|j: int| 0 <= j < i ==> (#[trigger] self.apids@[j]).num != apid,
            decreases self.apids@.len() - i,
        {
            if self.apids[i].num == apid {
                let r = self.apids[i].copy();
                assert(r.same(&self.apids@[i as int]));
                return Some(r);
            }
            i = i + 1;
        }
        None
    }
}

/// Whether `id` is the id of one of `products`.
pub open spec fn is_product_id(products: Seq<ProductSpec>, id: Seq<char>) -> bool {
    exists|k: int| 0 <= k < products.len() && (#[trigger] products[k]).product_id@ == id
}

/// Whether every packed product that an RDR names is a configured product.
pub open spec fn packed_ids_known(products: Seq<ProductSpec>, rdrs: Seq<RdrSpec>) -> bool {
    forall|i: int, j: int|
        0 <= i < rdrs.len() && 0 <= j < rdrs[i].packed_with@.len() ==> is_product_id(
            products,
            (#[trigger] rdrs[i].packed_with@[j])@,
        )
}

/// Whether `id` is one of `products`' ids.
fn contains_product_id(products: &Vec<ProductSpec>, id: &String) -> (r: bool)
    ensures
        r == is_product_id(products@, id@),
{
    let mut k: usize = 0;
    while k < products.len()
        invariant
            k <= products@.len(),
            forall|m: int| 0 <= m < k ==> (#[trigger] products@[m]).product_id@ != id@,
        decreases products@.len() - k,
    {
        if products[k].product_id == *id {
            return true;
        }
        k = k + 1;
    }
    false
}

impl Config {
    /// Checks that every packed product named by an RDR is a configured
    /// product.
    pub fn validate(self) -> (r: Result<Config, Error>)
        ensures
            r is Ok <==> packed_ids_known(self.products@, self.rdrs@),
            r is Ok ==> r->Ok_0 == self,
            r is Err ==> r->Err_0 is ConfigInvalid,
    {
        let mut i: usize = 0;
        while i < self.rdrs.len()
            invariant
                i <= self.rdrs@.len(),
                forall|a: int, j: int|
                    0 <= a < i && 0 <= j < self.rdrs@[a].packed_with@.len() ==> is_product_id(
                        self.products@,
                        (#[trigger] self.rdrs@[a].packed_with@[j])@,
                    ),
            decreases self.rdrs@.len() - i,
        {
            let rdr = &self.rdrs[i];
            let mut j: usize = 0;
            while j < rdr.packed_with.len()
                invariant
                    i < self.rdrs@.len(),
                    *rdr == self.rdrs@[i as int],
                    j <= rdr.packed_with@.len(),
                    forall|m: int|
                        0 <= m < j ==> is_product_id(
                            self.products@,
                            (#[trigger] rdr.packed_with@[m])@,
                        ),
                decreases rdr.packed_with@.len() - j,
            {
                let packed_id = &rdr.packed_with[j];
                if !contains_product_id(&self.products, packed_id) {
                    let mut msg = "product ".to_owned();
                    msg.append(rdr.product.as_str());
                    msg.append(" has invalid packed product ");
                    msg.append(packed_id.as_str());
                    return Err(Error::ConfigInvalid(msg));
                }
                j = j + 1;
            }
            i = i + 1;
        }
        Ok(self)
    }
}

} // verus!
