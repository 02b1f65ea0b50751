//! The schema of an array as the rest of the engine uses it: texts decoded,
//! flags as booleans, and every filter pipeline made into a chain.

use crate::array::{ArrayType, DataOrder, Layout};
use crate::datatype::DataType;
use crate::error::{Error, Field};
use crate::filters::FilterChain;
use crate::io::uri::URI;
use crate::storage::schema as stored;
use crate::storage::schema::EnumerationEntry;
use crate::storage::wire;
use vstd::prelude::*;
use vstd::slice::slice_to_vec;

verus! {

/// The error of the first of `items` that `check` rejects, if there is one.
pub open spec fn first_error<T>(items: Seq<T>, check: spec_fn(T) -> Result<(), Error>) -> Result<
    (),
    Error,
>
    decreases items.len(),
{
    if items.len() == 0 {
        Ok(())
    } else {
        match first_error(items.drop_last(), check) {
            Err(e) => Err(e),
            Ok(()) => check(items.last()),
        }
    }
}

/// Once an item is rejected, the items behind it do not matter.
pub proof fn lemma_first_error<T>(items: Seq<T>, check: spec_fn(T) -> Result<(), Error>, k: int)
    requires
        0 <= k <= items.len(),
        first_error(items.take(k), check) is Err,
    ensures
        first_error(items, check) == first_error(items.take(k), check),
    decreases items.len() - k,
{
    if k < items.len() {
        assert(items.take(k + 1).drop_last() =~= items.take(k));
        lemma_first_error(items, check, k + 1);
    } else {
        assert(items.take(k) =~= items);
    }
}

/// A dimension of an array.
pub struct Dimension {
    pub name: String,
    pub data_type: DataType,
    pub cell_val_num: u32,
    pub filters: Box<FilterChain>,
    pub range: Vec<u8>,
    pub extent: Vec<u8>,
}

impl Dimension {
    /// Whether a stored dimension can be taken over, and if not, why: its
    /// name is no text, or its filters make no chain.
    pub open spec fn check(storage: stored::DimensionView) -> Result<(), Error> {
        match wire::spec_text(storage.name, Field::Name) {
            Err(e) => Err(e),
            Ok(name) => match FilterChain::build_error(storage.coords_filters.filters) {
                Some(e) => Err(e),
                None => Ok(()),
            },
        }
    }

    /// Checking a stored dimension, as a function.
    pub open spec fn as_check() -> spec_fn(stored::DimensionView) -> Result<(), Error> {
        |storage: stored::DimensionView| Self::check(storage)
    }

    /// Whether the dimension holds what the stored dimension `storage`
    /// holds.
    pub open spec fn holds(&self, storage: stored::DimensionView) -> bool {
        &&& wire::spec_text(storage.name, Field::Name) == Ok::<Seq<char>, Error>(self.name@)
        &&& self.data_type == storage.data_type
        &&& self.cell_val_num == storage.cell_val_num
        &&& self.filters.models(storage.coords_filters.filters)
        &&& self.range@ == storage.range
        &&& self.extent@ == storage.tile_extent
    }

    /// The dimension that a stored dimension describes.
    pub fn try_from(storage: &stored::Dimension) -> (r: Result<Dimension, Error>)
        ensures
            match r {
                Ok(dimension) => Self::check(storage@) is Ok && dimension.holds(storage@),
                Err(e) => Self::check(storage@) == Err::<(), Error>(e),
            },
    {
        let name = wire::text(slice_to_vec(storage.name.as_slice()), Field::Name)?;
        let filters = FilterChain::try_from(&storage.coords_filters)?;
        Ok(
            Dimension {
                name,
                data_type: storage.data_type,
                cell_val_num: storage.cell_val_num,
                filters,
                range: slice_to_vec(storage.range.as_slice()),
                extent: slice_to_vec(storage.tile_extent.as_slice()),
            },
        )
    }
}

/// The domain of an array: its dimensions.
pub struct Domain {
    pub dimensions: Vec<Dimension>,
}

impl Domain {
    /// Whether a stored domain can be taken over, and if not, the error of
    /// its first dimension that cannot.
    pub open spec fn check(storage: stored::DomainView) -> Result<(), Error> {
        first_error(storage.dimensions, Dimension::as_check())
    }

    /// Whether the domain holds what the stored domain `storage` holds.
    pub open spec fn holds(&self, storage: stored::DomainView) -> bool {
        &&& self.dimensions@.len() == storage.dimensions.len()
        &&& forall|i: int|
            0 <= i < self.dimensions@.len() ==> (#[trigger] self.dimensions@[i]).holds(
                storage.dimensions[i],
            )
    }

    /// The domain that a stored domain describes.
    pub fn try_from(storage: &stored::Domain) -> (r: Result<Domain, Error>)
        ensures
            match r {
                Ok(domain) => Self::check(storage@) is Ok && domain.holds(storage@),
                Err(e) => Self::check(storage@) == Err::<(), Error>(e),
            },
    {
        let ghost all = storage@.dimensions;
        let mut dimensions: Vec<Dimension> = Vec::new();
        let mut i: usize = 0;
        assert(all.take(0) =~= Seq::<stored::DimensionView>::empty());
        while i < storage.dimensions.len()
            invariant
                i <= storage.dimensions@.len(),
                all == storage@.dimensions,
                all.len() == storage.dimensions@.len(),
                first_error(all.take(i as int), Dimension::as_check()) is Ok,
                dimensions@.len() == i,
                forall|j: int| 0 <= j < i ==> (#[trigger] dimensions@[j]).holds(all[j]),
            decreases storage.dimensions@.len() - i,
        {
            proof {
                assert(all.take(i + 1).drop_last() =~= all.take(i as int));
                assert(all.take(i + 1).last() == storage.dimensions@[i as int]@);
            }
            match Dimension::try_from(&storage.dimensions[i]) {
                Ok(dimension) => {
                    dimensions.push(dimension);
                },
                Err(e) => {
                    proof {
                        lemma_first_error(all, Dimension::as_check(), i + 1);
                    }
                    return Err(e);
                },
            }
            i += 1;
        }
        assert(all.take(i as int) =~= all);
        Ok(Domain { dimensions })
    }
}

/// An attribute of an array.
pub struct Attribute {
    pub name: String,
    pub data_type: DataType,
    pub cell_val_num: u32,
    pub filters: Box<FilterChain>,
    pub fill_value: Vec<u8>,
    pub nullable: bool,
    pub fill_value_validity: bool,
    pub data_order: DataOrder,
    pub enumeration_name: String,
}

impl Attribute {
    /// Whether a stored attribute can be taken over, and if not, why: its
    /// filters make no chain, or the name of its enumeration is no text.
    pub open spec fn check(storage: stored::AttributeView) -> Result<(), Error> {
        match FilterChain::build_error(storage.filters.filters) {
            Some(e) => Err(e),
            None => match wire::spec_text(storage.enumeration_name, Field::EnumerationName) {
                Err(e) => Err(e),
                Ok(name) => Ok(()),
            },
        }
    }

    /// Checking a stored attribute, as a function.
    pub open spec fn as_check() -> spec_fn(stored::AttributeView) -> Result<(), Error> {
        |storage: stored::AttributeView| Self::check(storage)
    }

    /// Whether the attribute holds what the stored attribute `storage`
    /// holds.
    pub open spec fn holds(&self, storage: stored::AttributeView) -> bool {
        &&& self.name@ == storage.name
        &&& self.data_type == storage.data_type
        &&& self.cell_val_num == storage.cell_val_num
        &&& self.filters.models(storage.filters.filters)
        &&& self.fill_value@ == storage.fill_value
        &&& self.nullable == (storage.nullable != 0)
        &&& self.fill_value_validity == (storage.fill_value_validity != 0)
        &&& self.data_order == storage.data_order
        &&& wire::spec_text(storage.enumeration_name, Field::EnumerationName) == Ok::<
            Seq<char>,
            Error,
        >(self.enumeration_name@)
    }

    /// The attribute that a stored attribute describes.
    pub fn try_from(storage: &stored::Attribute) -> (r: Result<Attribute, Error>)
        ensures
            match r {
                Ok(attribute) => Self::check(storage@) is Ok && attribute.holds(storage@),
                Err(e) => Self::check(storage@) == Err::<(), Error>(e),
            },
    {
        let filters = FilterChain::try_from(&storage.filters)?;
        let enumeration_name = wire::text(
            slice_to_vec(storage.enumeration_name.as_slice()),
            Field::EnumerationName,
        )?;
        Ok(
            Attribute {
                name: storage.name.clone(),
                data_type: storage.data_type,
                cell_val_num: storage.cell_val_num,
                filters,
                fill_value: slice_to_vec(storage.fill_value.as_slice()),
                nullable: storage.nullable != 0,
                fill_value_validity: storage.fill_value_validity != 0,
                data_order: storage.data_order,
                enumeration_name,
            },
        )
    }
}

/// A dimension label of an array.
pub struct DimensionLabel {
    pub dimension_idx: u32,
    pub name: String,
    pub relative_uri: bool,
    pub uri: URI,
    pub attribute_name: String,
    pub data_order: DataOrder,
    pub data_type: DataType,
    pub cell_val_num: u32,
    pub is_external: bool,
}

impl DimensionLabel {
    /// Whether a stored dimension label can be taken over, and if not, why:
    /// its name is no text, its location is no text or no URI, or the name
    /// of its attribute is no text. A location without a scheme is a path
    /// seen from `cwd`.
    pub open spec fn check(storage: stored::DimensionLabelView, cwd: Seq<char>) -> Result<
        (),
        Error,
    > {
        match wire::spec_text(storage.name, Field::Name) {
            Err(e) => Err(e),
            Ok(name) => match wire::spec_text(storage.uri, Field::Uri) {
                Err(e) => Err(e),
                Ok(text) => match URI::of_text(URI::full_text(text, cwd)) {
                    Err(e) => Err(e),
                    Ok(uri) => match wire::spec_text(storage.attribute_name, Field::AttributeName) {
                        Err(e) => Err(e),
                        Ok(attribute_name) => Ok(()),
                    },
                },
            },
        }
    }

    /// Checking a stored dimension label, as a function.
    pub open spec fn as_check(cwd: Seq<char>) -> spec_fn(stored::DimensionLabelView) -> Result<
        (),
        Error,
    > {
        |storage: stored::DimensionLabelView| Self::check(storage, cwd)
    }

    /// Whether the label holds what the stored label `storage` holds.
    pub open spec fn holds(&self, storage: stored::DimensionLabelView, cwd: Seq<char>) -> bool {
        &&& self.dimension_idx == storage.dimension_id
        &&& wire::spec_text(storage.name, Field::Name) == Ok::<Seq<char>, Error>(self.name@)
        &&& self.relative_uri == (storage.relative_uri != 0)
        &&& wire::spec_text(storage.uri, Field::Uri) matches Ok(text) && URI::of_text(
            URI::full_text(text, cwd),
        ) == Ok::<crate::io::uri::UriView, Error>(self.uri@)
        &&& wire::spec_text(storage.attribute_name, Field::AttributeName) == Ok::<
            Seq<char>,
            Error,
        >(self.attribute_name@)
        &&& self.data_order == storage.data_order
        &&& self.data_type == storage.data_type
        &&& self.cell_val_num == storage.cell_val_num
        &&& self.is_external == (storage.is_external != 0)
    }

    /// The dimension label that a stored dimension label describes.
    pub fn try_from(storage: &stored::DimensionLabel, cwd: &str) -> (r: Result<
        DimensionLabel,
        Error,
    >)
        ensures
            match r {
                Ok(label) => Self::check(storage@, cwd@) is Ok && label.holds(storage@, cwd@),
                Err(e) => Self::check(storage@, cwd@) == Err::<(), Error>(e),
            },
    {
        let name = wire::text(slice_to_vec(storage.name.as_slice()), Field::Name)?;
        let text = wire::text(slice_to_vec(storage.uri.as_slice()), Field::Uri)?;
        let uri = URI::from_string(text.as_str(), cwd)?;
        let attribute_name = wire::text(
            slice_to_vec(storage.attribute_name.as_slice()),
            Field::AttributeName,
        )?;
        Ok(
            DimensionLabel {
                dimension_idx: storage.dimension_id,
                name,
                relative_uri: storage.relative_uri != 0,
                uri,
                attribute_name,
                data_order: storage.data_order,
                data_type: storage.data_type,
                cell_val_num: storage.cell_val_num,
                is_external: storage.is_external != 0,
            },
        )
    }
}

/// The schema of an array.
pub struct ArraySchema {
    pub version: u32,
    pub allows_dups: bool,
    pub array_type: ArrayType,
    pub tile_order: Layout,
    pub cell_order: Layout,
    pub capacity: u64,
    pub cell_var_filters: Box<FilterChain>,
    pub cell_validity_filters: Box<FilterChain>,
    pub domain: Domain,
    pub attributes: Vec<Attribute>,
    pub dimension_labels: Vec<DimensionLabel>,
    /// The enumerations by name, in the order in which they are stored; of
    /// two entries with one name the later one counts.
    pub enumerations: Vec<EnumerationEntry>,
}

/// The path that `entries` give for the enumeration `name`: that of the last
/// entry of that name, if there is one.
pub open spec fn path_of(entries: Seq<stored::EnumerationEntryView>, name: Seq<char>) -> Option<
    Seq<char>,
>
    decreases entries.len(),
{
    if entries.len() == 0 {
        None
    } else if entries.last().name == name {
        Some(entries.last().path)
    } else {
        path_of(entries.drop_last(), name)
    }
}

impl ArraySchema {
    /// Whether a stored schema can be taken over, and if not, why: the
    /// error of its first attribute that cannot, else of its first
    /// dimension label, else of the filters for cells of variable size, of
    /// the filters for the validity of cells, or of its domain.
    pub open spec fn check(storage: stored::ArraySchemaView, cwd: Seq<char>) -> Result<(), Error> {
        match first_error(storage.attributes, Attribute::as_check()) {
            Err(e) => Err(e),
            Ok(()) => match first_error(storage.dimension_labels, DimensionLabel::as_check(cwd)) {
                Err(e) => Err(e),
                Ok(()) => match FilterChain::build_error(storage.cell_var_filters.filters) {
                    Some(e) => Err(e),
                    None => match FilterChain::build_error(storage.cell_validity_filters.filters) {
                        Some(e) => Err(e),
                        None => Domain::check(storage.domain),
                    },
                },
            },
        }
    }

    /// Whether the schema holds what the stored schema `storage` holds.
    pub open spec fn holds(&self, storage: stored::ArraySchemaView, cwd: Seq<char>) -> bool {
        &&& self.version == storage.version
        &&& self.allows_dups == (storage.allows_dups != 0)
        &&& self.array_type == storage.array_type
        &&& self.tile_order == storage.tile_order
        &&& self.cell_order == storage.cell_order
        &&& self.capacity == storage.capacity
        &&& self.cell_var_filters.models(storage.cell_var_filters.filters)
        &&& self.cell_validity_filters.models(storage.cell_validity_filters.filters)
        &&& self.domain.holds(storage.domain)
        &&& self.attributes@.len() == storage.attributes.len()
        &&& forall|i: int|
            0 <= i < self.attributes@.len() ==> (#[trigger] self.attributes@[i]).holds(
                storage.attributes[i],
            )
        &&& self.dimension_labels@.len() == storage.dimension_labels.len()
        &&& forall|i: int|
            0 <= i < self.dimension_labels@.len() ==> (#[trigger] self.dimension_labels@[i]).holds(
                storage.dimension_labels[i],
                cwd,
            )
        &&& wire::views(self.enumerations@) == storage.enumeration_map
    }

    /// The attributes that stored attributes describe.
    fn attributes_from(storage: &Vec<stored::Attribute>) -> (r: Result<Vec<Attribute>, Error>)
        ensures
            match r {
                Ok(attributes) => first_error(wire::views(storage@), Attribute::as_check()) is Ok
                    && attributes@.len() == storage@.len() && forall|i: int|
                    0 <= i < attributes@.len() ==> (#[trigger] attributes@[i]).holds(storage@[i]@),
                Err(e) => first_error(wire::views(storage@), Attribute::as_check()) == Err::<
                    (),
                    Error,
                >(e),
            },
    {
        let ghost all = wire::views(storage@);
        let mut attributes: Vec<Attribute> = Vec::new();
        let mut i: usize = 0;
        assert(all.take(0) =~= Seq::<stored::AttributeView>::empty());
        while i < storage.len()
            invariant
                i <= storage@.len(),
                all == wire::views(storage@),
                first_error(all.take(i as int), Attribute::as_check()) is Ok,
                attributes@.len() == i,
                forall|j: int| 0 <= j < i ==> (#[trigger] attributes@[j]).holds(storage@[j]@),
            decreases storage@.len() - i,
        {
            proof {
                assert(all.take(i + 1).drop_last() =~= all.take(i as int));
                assert(all.take(i + 1).last() == storage@[i as int]@);
            }
            match Attribute::try_from(&storage[i]) {
                Ok(attribute) => {
                    attributes.push(attribute);
                },
                Err(e) => {
                    proof {
                        lemma_first_error(all, Attribute::as_check(), i + 1);
                    }
                    return Err(e);
                },
            }
            i += 1;
        }
        assert(all.take(i as int) =~= all);
        Ok(attributes)
    }

    /// The dimension labels that stored dimension labels describe.
    fn labels_from(storage: &Vec<stored::DimensionLabel>, cwd: &str) -> (r: Result<
        Vec<DimensionLabel>,
        Error,
    >)
        ensures
            match r {
                Ok(labels) => first_error(wire::views(storage@), DimensionLabel::as_check(cwd@))
                    is Ok && labels@.len() == storage@.len() && forall|i: int|
                    0 <= i < labels@.len() ==> (#[trigger] labels@[i]).holds(storage@[i]@, cwd@),
                Err(e) => first_error(wire::views(storage@), DimensionLabel::as_check(cwd@))
                    == Err::<(), Error>(e),
            },
    {
        let ghost all = wire::views(storage@);
        let mut labels: Vec<DimensionLabel> = Vec::new();
        let mut i: usize = 0;
        assert(all.take(0) =~= Seq::<stored::DimensionLabelView>::empty());
        while i < storage.len()
            invariant
                i <= storage@.len(),
                all == wire::views(storage@),
                first_error(all.take(i as int), DimensionLabel::as_check(cwd@)) is Ok,
                labels@.len() == i,
                forall|j: int| 0 <= j < i ==> (#[trigger] labels@[j]).holds(storage@[j]@, cwd@),
            decreases storage@.len() - i,
        {
            proof {
                assert(all.take(i + 1).drop_last() =~= all.take(i as int));
                assert(all.take(i + 1).last() == storage@[i as int]@);
            }
            match DimensionLabel::try_from(&storage[i], cwd) {
                Ok(label) => {
                    labels.push(label);
                },
                Err(e) => {
                    proof {
                        lemma_first_error(all, DimensionLabel::as_check(cwd@), i + 1);
                    }
                    return Err(e);
                },
            }
            i += 1;
        }
        assert(all.take(i as int) =~= all);
        Ok(labels)
    }

    /// The schema that a stored schema describes. The location of a
    /// dimension label that has no scheme is a path seen from `cwd`.
    pub fn try_from(storage: stored::ArraySchema, cwd: &str) -> (r: Result<ArraySchema, Error>)
        ensures
            match r {
                Ok(schema) => Self::check(storage@, cwd@) is Ok && schema.holds(storage@, cwd@),
                Err(e) => Self::check(storage@, cwd@) == Err::<(), Error>(e),
            },
    {
        let attributes = Self::attributes_from(&storage.attributes)?;
        let dimension_labels = Self::labels_from(&storage.dimension_labels, cwd)?;
        let cell_var_filters = FilterChain::try_from(&storage.cell_var_filters)?;
        let cell_validity_filters = FilterChain::try_from(&storage.cell_validity_filters)?;
        let domain = Domain::try_from(&storage.domain)?;
        Ok(
            ArraySchema {
                version: storage.version,
                allows_dups: storage.allows_dups != 0,
                array_type: storage.array_type,
                tile_order: storage.tile_order,
                cell_order: storage.cell_order,
                capacity: storage.capacity,
                cell_var_filters,
                cell_validity_filters,
                domain,
                attributes,
                dimension_labels,
                enumerations: storage.enumeration_map,
            },
        )
    }

    /// The path that the enumeration `name` is stored under, if the schema
    /// names that enumeration.
    pub fn enumeration_path(&self, name: &str) -> (path: Option<String>)
        ensures
            match path {
                Some(p) => path_of(wire::views(self.enumerations@), name@) == Some(p@),
                None => path_of(wire::views(self.enumerations@), name@) is None,
            },
    {
        let ghost all = wire::views(self.enumerations@);
        let wanted = String::from_str(name);
        let mut i: usize = self.enumerations.len();
        assert(all.take(i as int) =~= all);
        while i > 0
            invariant
                i <= self.enumerations@.len(),
                all == wire::views(self.enumerations@),
                wanted@ == name@,
                path_of(all, name@) == path_of(all.take(i as int), name@),
            decreases i,
        {
            proof {
                assert(all.take(i as int).drop_last() =~= all.take(i - 1));
                assert(all.take(i as int).last() == self.enumerations@[i - 1]@);
            }
            i -= 1;
            if self.enumerations[i].name == wanted {
                return Some(self.enumerations[i].path.clone());
            }
        }
        None
    }
}

} // verus!
