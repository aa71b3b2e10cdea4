//! Names that tie villages and resources to the auction's identifiers.
use crate::decimal::Dec;
pub use crate::events::ResourceType;
use std::collections::hash_map::DefaultHasher;
use std::hash::Hasher;
use vstd::prelude::*;
use vstd::std_specs::hash::DefaultHasherAdditionalSpecFns;

verus! {

/// The auction's name for a resource.
pub open spec fn resource_name(r: ResourceType) -> Seq<char> {
    match r {
        ResourceType::Wood => seq!['w', 'o', 'o', 'd'],
        ResourceType::Food => seq!['f', 'o', 'o', 'd'],
    }
}

/// The resource with the auction's name, if any.
pub open spec fn resource_named(s: Seq<char>) -> Option<ResourceType> {
    if s == resource_name(ResourceType::Wood) {
        Some(ResourceType::Wood)
    } else if s == resource_name(ResourceType::Food) {
        Some(ResourceType::Food)
    } else {
        None
    }
}

/// The auction's names for resources.
pub trait ResourceTypeExt {
    /// The string identifier that the auction uses.
    fn as_str(&self) -> (r: &'static str)
        ensures
            r@ == self.name_spec(),
    ;

    /// The resource with the identifier, if any.
    fn from_str(s: &str) -> (r: Option<ResourceType>)
        ensures
            r == resource_named(s@),
    ;

    spec fn name_spec(&self) -> Seq<char>;
}

impl ResourceTypeExt for ResourceType {
    open spec fn name_spec(&self) -> Seq<char> {
        resource_name(*self)
    }

    fn as_str(&self) -> (r: &'static str) {
        match self {
            ResourceType::Wood => {
                proof {
                    reveal_strlit("wood");
                }
                "wood"
            },
            ResourceType::Food => {
                proof {
                    reveal_strlit("food");
                }
                "food"
            },
        }
    }

    fn from_str(s: &str) -> (r: Option<ResourceType>) {
        let given = String::from_str(s);
        let wood = String::from_str("wood");
        let food = String::from_str("food");
        proof {
            reveal_strlit("wood");
            reveal_strlit("food");
            assert("wood"@ =~= resource_name(ResourceType::Wood));
            assert("food"@ =~= resource_name(ResourceType::Food));
        }
        if given == wood {
            Some(ResourceType::Wood)
        } else if given == food {
            Some(ResourceType::Food)
        } else {
            None
        }
    }
}

/// A request to place an order in the market.
#[derive(Clone, Copy, Debug)]
pub struct OrderRequest {
    pub resource: ResourceType,
    pub is_buy: bool,
    pub quantity: u32,
    pub price: Dec,
}

/// The number that `DefaultHasher` gives a string (its bytes, then the byte
/// `0xff`, as `Hash for str` writes them), cut to 32 bits.
pub open spec fn participant_number(name: Seq<char>) -> u32 {
    DefaultHasher::spec_finish(seq![vstd::utf8::encode_utf8(name), seq![0xffu8]]) as u32
}

/// The unique identifier of a village.
#[derive(Clone, Debug)]
pub struct VillageId(pub String);

impl VillageId {
    pub fn new(id: &str) -> (r: Self)
        ensures
            r.0@ == id@,
    {
        VillageId(String::from_str(id))
    }

    /// The village's participant number in the auction: its name hashed with
    /// the standard library's `DefaultHasher`, cut to 32 bits. Equal names give
    /// equal numbers.
    pub fn to_participant_id(&self) -> (r: u32)
        ensures
            r == participant_number(self.0@),
    {
        let mut hasher = DefaultHasher::new();
        let name = self.0.as_str();
        let bytes = name.as_bytes();
        hasher.write(bytes);
        let mut end: Vec<u8> = Vec::new();
        end.push(0xffu8);
        hasher.write(end.as_slice());
        proof {
            assert(bytes@ == vstd::utf8::encode_utf8(self.0@));
            assert(end@ =~= seq![0xffu8]);
            assert(hasher@[0] == bytes@);
            assert(hasher@[1] == end@);
            assert(hasher@ =~= seq![vstd::utf8::encode_utf8(self.0@), seq![0xffu8]]);
        }
        let h: u64 = hasher.finish();
        #[verifier::truncate]
        (h as u32)
    }
}

} // verus!
