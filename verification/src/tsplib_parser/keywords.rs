//! The keywords of the header and of the data sections.

use vstd::prelude::*;
use vstd::string::StringSliceAdditionalSpecFns;

verus! {

pub const NAME: &'static str = "NAME";

pub const TYPE: &'static str = "TYPE";

pub const COMMENT: &'static str = "COMMENT";

pub const DIMENSION: &'static str = "DIMENSION";

pub const CAPACITY: &'static str = "CAPACITY";

pub const EDGE_WEIGHT_TYPE: &'static str = "EDGE_WEIGHT_TYPE";

pub const EDGE_WEIGHT_FORMAT: &'static str = "EDGE_WEIGHT_FORMAT";

pub const EDGE_DATA_FORMAT: &'static str = "EDGE_DATA_FORMAT";

pub const DISPLAY_DATA_TYPE: &'static str = "DISPLAY_DATA_TYPE";

pub const NODE_COORD_TYPE: &'static str = "NODE_COORD_TYPE";

pub const NODE_COORD_SECTION: &'static str = "NODE_COORD_SECTION";

pub const DEPOT_SECTION: &'static str = "DEPOT_SECTION";

pub const DEMAND_SECTION: &'static str = "DEMAND_SECTION";

pub const EDGE_DATA_SECTION: &'static str = "EDGE_DATA_SECTION";

pub const FIXED_EDGE_SECTION: &'static str = "FIXED_EDGE_SECTION";

pub const DISPLAY_DATA_SECTION: &'static str = "DISPLAY_DATA_SECTION";

pub const TOUR_SECTION: &'static str = "TOUR_SECTION";

pub const EDGE_WEIGHT_SECTION: &'static str = "EDGE_WEIGHT_SECTION";

/// The word that ends the text.
pub const END_OF_FILE: &'static str = "EOF";

/// A key of the header.
#[derive(Clone, Copy, Debug, PartialEq, Eq, Structural)]
pub enum HeaderKey {
    Name,
    Type,
    Comment,
    Dimension,
    Capacity,
    EdgeWeightType,
    EdgeWeightFormat,
    EdgeDataFormat,
    DisplayDataType,
    NodeCoordType,
}

/// A data section.
#[derive(Clone, Copy, Debug, PartialEq, Eq, Structural)]
pub enum SectionKind {
    NodeCoord,
    Depot,
    Demand,
    EdgeData,
    FixedEdge,
    DisplayData,
    Tour,
    EdgeWeight,
}

/// Why a text is not an instance.
#[derive(Clone, Copy, Debug, PartialEq, Eq, Structural)]
pub enum ParseError {
    /// The header lacks a key that it must hold.
    MissingKey(HeaderKey),
    /// The header holds a key twice that it may hold once.
    DuplicateKey(HeaderKey),
    /// The value of a key is not one that the key can have: a word that is
    /// not known, a number that is none or does not fit, a dimension or a
    /// capacity of zero.
    BadValue(HeaderKey),
    /// Behind the header and the sections read so far stands something that
    /// is neither the name of a section nor the end.
    UnknownSection,
    /// The text holds a section twice.
    DuplicateSection(SectionKind),
    /// The rows of a section do not fit the header: a node number that is
    /// not from 1 to the dimension, or weights that are not as many as the
    /// layout asks for.
    BadSection(SectionKind),
}

/// The number of keys.
pub const KEY_COUNT: usize = 10;

/// The number of sections.
pub const SECTION_COUNT: usize = 8;

impl HeaderKey {
    /// The place of the key among the keys.
    pub open spec fn index(self) -> int {
        match self {
            HeaderKey::Name => 0,
            HeaderKey::Type => 1,
            HeaderKey::Comment => 2,
            HeaderKey::Dimension => 3,
            HeaderKey::Capacity => 4,
            HeaderKey::EdgeWeightType => 5,
            HeaderKey::EdgeWeightFormat => 6,
            HeaderKey::EdgeDataFormat => 7,
            HeaderKey::DisplayDataType => 8,
            HeaderKey::NodeCoordType => 9,
        }
    }

    /// The key at a place among the keys.
    pub open spec fn at(index: int) -> HeaderKey {
        if index == 0 {
            HeaderKey::Name
        } else if index == 1 {
            HeaderKey::Type
        } else if index == 2 {
            HeaderKey::Comment
        } else if index == 3 {
            HeaderKey::Dimension
        } else if index == 4 {
            HeaderKey::Capacity
        } else if index == 5 {
            HeaderKey::EdgeWeightType
        } else if index == 6 {
            HeaderKey::EdgeWeightFormat
        } else if index == 7 {
            HeaderKey::EdgeDataFormat
        } else if index == 8 {
            HeaderKey::DisplayDataType
        } else {
            HeaderKey::NodeCoordType
        }
    }

    /// The word of the key as bytes.
    pub open spec fn text(self) -> Seq<u8> {
        match self {
            HeaderKey::Name => NAME.spec_bytes(),
            HeaderKey::Type => TYPE.spec_bytes(),
            HeaderKey::Comment => COMMENT.spec_bytes(),
            HeaderKey::Dimension => DIMENSION.spec_bytes(),
            HeaderKey::Capacity => CAPACITY.spec_bytes(),
            HeaderKey::EdgeWeightType => EDGE_WEIGHT_TYPE.spec_bytes(),
            HeaderKey::EdgeWeightFormat => EDGE_WEIGHT_FORMAT.spec_bytes(),
            HeaderKey::EdgeDataFormat => EDGE_DATA_FORMAT.spec_bytes(),
            HeaderKey::DisplayDataType => DISPLAY_DATA_TYPE.spec_bytes(),
            HeaderKey::NodeCoordType => NODE_COORD_TYPE.spec_bytes(),
        }
    }

    /// The place of the key among the keys.
    pub fn position(self) -> (index: usize)
        ensures
            index == self.index(),
            index < KEY_COUNT,
            HeaderKey::at(index as int) == self,
    {
        match self {
            HeaderKey::Name => 0,
            HeaderKey::Type => 1,
            HeaderKey::Comment => 2,
            HeaderKey::Dimension => 3,
            HeaderKey::Capacity => 4,
            HeaderKey::EdgeWeightType => 5,
            HeaderKey::EdgeWeightFormat => 6,
            HeaderKey::EdgeDataFormat => 7,
            HeaderKey::DisplayDataType => 8,
            HeaderKey::NodeCoordType => 9,
        }
    }

    /// The key at a place among the keys.
    pub fn from_position(index: usize) -> (key: HeaderKey)
        requires
            index < KEY_COUNT,
        ensures
            key == HeaderKey::at(index as int),
            key.index() == index,
    {
        if index == 0 {
            HeaderKey::Name
        } else if index == 1 {
            HeaderKey::Type
        } else if index == 2 {
            HeaderKey::Comment
        } else if index == 3 {
            HeaderKey::Dimension
        } else if index == 4 {
            HeaderKey::Capacity
        } else if index == 5 {
            HeaderKey::EdgeWeightType
        } else if index == 6 {
            HeaderKey::EdgeWeightFormat
        } else if index == 7 {
            HeaderKey::EdgeDataFormat
        } else if index == 8 {
            HeaderKey::DisplayDataType
        } else {
            HeaderKey::NodeCoordType
        }
    }

    /// The word of the key.
    pub fn word(self) -> (word: &'static str)
        ensures
            word.spec_bytes() == self.text(),
    {
        match self {
            HeaderKey::Name => NAME,
            HeaderKey::Type => TYPE,
            HeaderKey::Comment => COMMENT,
            HeaderKey::Dimension => DIMENSION,
            HeaderKey::Capacity => CAPACITY,
            HeaderKey::EdgeWeightType => EDGE_WEIGHT_TYPE,
            HeaderKey::EdgeWeightFormat => EDGE_WEIGHT_FORMAT,
            HeaderKey::EdgeDataFormat => EDGE_DATA_FORMAT,
            HeaderKey::DisplayDataType => DISPLAY_DATA_TYPE,
            HeaderKey::NodeCoordType => NODE_COORD_TYPE,
        }
    }
}

impl SectionKind {
    /// The place of the section among the sections.
    pub open spec fn index(self) -> int {
        match self {
            SectionKind::NodeCoord => 0,
            SectionKind::Depot => 1,
            SectionKind::Demand => 2,
            SectionKind::EdgeData => 3,
            SectionKind::FixedEdge => 4,
            SectionKind::DisplayData => 5,
            SectionKind::Tour => 6,
            SectionKind::EdgeWeight => 7,
        }
    }

    /// The section at a place among the sections.
    pub open spec fn at(index: int) -> SectionKind {
        if index == 0 {
            SectionKind::NodeCoord
        } else if index == 1 {
            SectionKind::Depot
        } else if index == 2 {
            SectionKind::Demand
        } else if index == 3 {
            SectionKind::EdgeData
        } else if index == 4 {
            SectionKind::FixedEdge
        } else if index == 5 {
            SectionKind::DisplayData
        } else if index == 6 {
            SectionKind::Tour
        } else {
            SectionKind::EdgeWeight
        }
    }

    /// The name of the section as bytes.
    pub open spec fn text(self) -> Seq<u8> {
        match self {
            SectionKind::NodeCoord => NODE_COORD_SECTION.spec_bytes(),
            SectionKind::Depot => DEPOT_SECTION.spec_bytes(),
            SectionKind::Demand => DEMAND_SECTION.spec_bytes(),
            SectionKind::EdgeData => EDGE_DATA_SECTION.spec_bytes(),
            SectionKind::FixedEdge => FIXED_EDGE_SECTION.spec_bytes(),
            SectionKind::DisplayData => DISPLAY_DATA_SECTION.spec_bytes(),
            SectionKind::Tour => TOUR_SECTION.spec_bytes(),
            SectionKind::EdgeWeight => EDGE_WEIGHT_SECTION.spec_bytes(),
        }
    }

    /// The place of the section among the sections.
    pub fn position(self) -> (index: usize)
        ensures
            index == self.index(),
            index < SECTION_COUNT,
            SectionKind::at(index as int) == self,
    {
        match self {
            SectionKind::NodeCoord => 0,
            SectionKind::Depot => 1,
            SectionKind::Demand => 2,
            SectionKind::EdgeData => 3,
            SectionKind::FixedEdge => 4,
            SectionKind::DisplayData => 5,
            SectionKind::Tour => 6,
            SectionKind::EdgeWeight => 7,
        }
    }

    /// The section at a place among the sections.
    pub fn from_position(index: usize) -> (kind: SectionKind)
        requires
            index < SECTION_COUNT,
        ensures
            kind == SectionKind::at(index as int),
            kind.index() == index,
    {
        if index == 0 {
            SectionKind::NodeCoord
        } else if index == 1 {
            SectionKind::Depot
        } else if index == 2 {
            SectionKind::Demand
        } else if index == 3 {
            SectionKind::EdgeData
        } else if index == 4 {
            SectionKind::FixedEdge
        } else if index == 5 {
            SectionKind::DisplayData
        } else if index == 6 {
            SectionKind::Tour
        } else {
            SectionKind::EdgeWeight
        }
    }

    /// The name of the section.
    pub fn word(self) -> (word: &'static str)
        ensures
            word.spec_bytes() == self.text(),
    {
        match self {
            SectionKind::NodeCoord => NODE_COORD_SECTION,
            SectionKind::Depot => DEPOT_SECTION,
            SectionKind::Demand => DEMAND_SECTION,
            SectionKind::EdgeData => EDGE_DATA_SECTION,
            SectionKind::FixedEdge => FIXED_EDGE_SECTION,
            SectionKind::DisplayData => DISPLAY_DATA_SECTION,
            SectionKind::Tour => TOUR_SECTION,
            SectionKind::EdgeWeight => EDGE_WEIGHT_SECTION,
        }
    }
}

} // verus!
