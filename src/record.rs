//! Normalised phone records, assembled from raw rows of twelve cells.

use vstd::prelude::*;
use crate::decimal::Decimal;
use crate::fields::{
    amount_before, dash_of, dash_check, measure_result, os_of, parse_announce_year,
    parse_display_size, parse_os, parse_sensors, parse_sim_type, parse_weight, parse_year,
    release_status_of, sensors_of, sim_of, year_of, FieldFormatError, ReleaseStatus,
};

verus! {

/// The number of cells in a row.
pub const ROW_WIDTH: usize = 12;

/// One phone, with every cell normalised.
pub struct Record {
    pub manufacturer: String,
    pub model: String,
    pub announced_year: Option<u32>,
    pub release_status: Option<ReleaseStatus>,
    pub body_dimensions: Option<String>,
    pub body_weight_grams: Option<Decimal>,
    pub sim_type: Option<String>,
    pub display_type: Option<String>,
    pub display_size_inches: Option<Decimal>,
    pub display_resolution: Option<String>,
    pub sensors: Option<String>,
    pub platform_os: Option<String>,
}

/// A record, with its texts seen as character sequences.
pub ghost struct RecordView {
    pub manufacturer: Seq<char>,
    pub model: Seq<char>,
    pub announced_year: Option<u32>,
    pub release_status: Option<ReleaseStatus>,
    pub body_dimensions: Option<Seq<char>>,
    pub body_weight_grams: Option<Decimal>,
    pub sim_type: Option<Seq<char>>,
    pub display_type: Option<Seq<char>>,
    pub display_size_inches: Option<Decimal>,
    pub display_resolution: Option<Seq<char>>,
    pub sensors: Option<Seq<char>>,
    pub platform_os: Option<Seq<char>>,
}

impl View for Record {
    type V = RecordView;

    open spec fn view(&self) -> RecordView {
        RecordView {
            manufacturer: self.manufacturer@,
            model: self.model@,
            announced_year: self.announced_year,
            release_status: self.release_status,
            body_dimensions: self.body_dimensions.deep_view(),
            body_weight_grams: self.body_weight_grams,
            sim_type: self.sim_type.deep_view(),
            display_type: self.display_type.deep_view(),
            display_size_inches: self.display_size_inches,
            display_resolution: self.display_resolution.deep_view(),
            sensors: self.sensors.deep_view(),
            platform_os: self.platform_os.deep_view(),
        }
    }
}

/// Why a row could not become a record.
#[derive(Clone, Copy, Debug, PartialEq, Eq, Structural)]
pub enum RowError {
    /// The row has fewer than twelve cells.
    Shape,
    /// A measurement cell holds its unit but no readable number.
    Field(FieldFormatError),
}

/// The record that a row of cells describes, or why there is none.
pub open spec fn record_of(row: Seq<Seq<char>>) -> Result<RecordView, RowError> {
    if row.len() < 12 {
        Err(RowError::Shape)
    } else {
        let weight = measure_result(amount_before(row[5], "g"@), FieldFormatError::Weight);
        let size = measure_result(
            amount_before(row[8], "inches"@),
            FieldFormatError::DisplaySize,
        );
        match (weight, size) {
            (Err(e), _) => Err(RowError::Field(e)),
            (_, Err(e)) => Err(RowError::Field(e)),
            (Ok(w), Ok(d)) => Ok(
                RecordView {
                    manufacturer: row[0],
                    model: row[1],
                    announced_year: year_of(row[2]),
                    release_status: release_status_of(row[3]),
                    body_dimensions: dash_of(row[4]),
                    body_weight_grams: w,
                    sim_type: sim_of(row[6]),
                    display_type: dash_of(row[7]),
                    display_size_inches: d,
                    display_resolution: dash_of(row[9]),
                    sensors: sensors_of(row[10]),
                    platform_os: os_of(row[11]),
                },
            ),
        }
    }
}

/// Builds the record for one row, applying each column's parser to its cell.
pub fn make_record(row: &Vec<String>) -> (r: Result<Record, RowError>)
    ensures
        match r {
            Ok(rec) => record_of(row.deep_view()) == Ok::<RecordView, RowError>(rec@),
            Err(e) => record_of(row.deep_view()) == Err::<RecordView, RowError>(e),
        },
{
    let ghost cells = row.deep_view();
    if row.len() < ROW_WIDTH {
        return Err(RowError::Shape);
    }
    assert(forall|i: int| 0 <= i < row.len() ==> cells[i] == #[trigger] row@[i]@);
    let weight = match parse_weight(row[5].as_str()) {
        Ok(w) => w,
        Err(e) => {
            return Err(RowError::Field(e));
        },
    };
    let size = match parse_display_size(row[8].as_str()) {
        Ok(d) => d,
        Err(e) => {
            return Err(RowError::Field(e));
        },
    };
    Ok(
        Record {
            manufacturer: row[0].clone(),
            model: row[1].clone(),
            announced_year: parse_year(row[2].as_str()),
            release_status: parse_announce_year(row[3].as_str()),
            body_dimensions: dash_check(row[4].as_str()),
            body_weight_grams: weight,
            sim_type: parse_sim_type(row[6].as_str()),
            display_type: dash_check(row[7].as_str()),
            display_size_inches: size,
            display_resolution: dash_check(row[9].as_str()),
            sensors: parse_sensors(row[10].as_str()),
            platform_os: parse_os(row[11].as_str()),
        },
    )
}

} // verus!
