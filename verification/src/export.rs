//! The layout of a results raster: nine summary bands, then one band per
//! sampled instant, each band with a description.

use crate::labels::{band_label, band_label_text, parse_band_label, spec_label_instant};
use crate::seasonal::{analysis_period, is_analysis_period, AnalysisPeriod};
use crate::types::{Fraction, ShadowError};
use vstd::prelude::*;
use vstd::string::StringExecFns;

verus! {

/// Number of summary bands at the head of a results raster.
pub const SUMMARY_BANDS: usize = 9;

/// The summary bands, in the order in which they are written.
#[derive(Debug, Clone, Copy, PartialEq, Eq, Structural)]
pub enum SummaryBand {
    TotalShadowHours,
    AverageShadowFraction,
    MaxConsecutiveShadowHours,
    MorningShadowHours,
    NoonShadowHours,
    AfternoonShadowHours,
    SolarEfficiencyFraction,
    AverageDailySolarHours,
    TotalAvailableSolarHours,
}

impl SummaryBand {
    /// Position of the band, counted from zero.
    pub open spec fn spec_index(self) -> int {
        match self {
            SummaryBand::TotalShadowHours => 0,
            SummaryBand::AverageShadowFraction => 1,
            SummaryBand::MaxConsecutiveShadowHours => 2,
            SummaryBand::MorningShadowHours => 3,
            SummaryBand::NoonShadowHours => 4,
            SummaryBand::AfternoonShadowHours => 5,
            SummaryBand::SolarEfficiencyFraction => 6,
            SummaryBand::AverageDailySolarHours => 7,
            SummaryBand::TotalAvailableSolarHours => 8,
        }
    }

    /// The band at position `index`, counted from zero.
    pub open spec fn spec_at(index: int) -> Option<SummaryBand> {
        if index == 0 {
            Some(SummaryBand::TotalShadowHours)
        } else if index == 1 {
            Some(SummaryBand::AverageShadowFraction)
        } else if index == 2 {
            Some(SummaryBand::MaxConsecutiveShadowHours)
        } else if index == 3 {
            Some(SummaryBand::MorningShadowHours)
        } else if index == 4 {
            Some(SummaryBand::NoonShadowHours)
        } else if index == 5 {
            Some(SummaryBand::AfternoonShadowHours)
        } else if index == 6 {
            Some(SummaryBand::SolarEfficiencyFraction)
        } else if index == 7 {
            Some(SummaryBand::AverageDailySolarHours)
        } else if index == 8 {
            Some(SummaryBand::TotalAvailableSolarHours)
        } else {
            None
        }
    }

    /// The description written to the band.
    pub open spec fn spec_description(self) -> Seq<char> {
        match self {
            SummaryBand::TotalShadowHours => "Total_Shadow_Hours"@,
            SummaryBand::AverageShadowFraction => "Average_Shadow_Fraction_(0-1)"@,
            SummaryBand::MaxConsecutiveShadowHours => "Max_Consecutive_Shadow_Hours"@,
            SummaryBand::MorningShadowHours => "Morning_Shadow_Hours"@,
            SummaryBand::NoonShadowHours => "Noon_Shadow_Hours"@,
            SummaryBand::AfternoonShadowHours => "Afternoon_Shadow_Hours"@,
            SummaryBand::SolarEfficiencyFraction => "Solar_Efficiency_Fraction_(0-1)"@,
            SummaryBand::AverageDailySolarHours => "Average_Daily_Solar_Hours"@,
            SummaryBand::TotalAvailableSolarHours => "Total_Available_Solar_Hours"@,
        }
    }

    /// The name under which the band is reported to a reader.
    pub open spec fn spec_title(self) -> Seq<char> {
        match self {
            SummaryBand::TotalShadowHours => "Total Shadow Hours"@,
            SummaryBand::AverageShadowFraction => "Average Shadow Fraction"@,
            SummaryBand::MaxConsecutiveShadowHours => "Max Consecutive Shadow Hours"@,
            SummaryBand::MorningShadowHours => "Morning Shadow Hours"@,
            SummaryBand::NoonShadowHours => "Noon Shadow Hours"@,
            SummaryBand::AfternoonShadowHours => "Afternoon Shadow Hours"@,
            SummaryBand::SolarEfficiencyFraction => "Solar Efficiency Fraction"@,
            SummaryBand::AverageDailySolarHours => "Average Daily Solar Hours"@,
            SummaryBand::TotalAvailableSolarHours => "Total Available Solar Hours"@,
        }
    }

    pub fn index(self) -> (i: usize)
        ensures
            i == self.spec_index(),
            i < 9,
            SummaryBand::spec_at(i as int) == Some(self),
    {
        match self {
            SummaryBand::TotalShadowHours => 0,
            SummaryBand::AverageShadowFraction => 1,
            SummaryBand::MaxConsecutiveShadowHours => 2,
            SummaryBand::MorningShadowHours => 3,
            SummaryBand::NoonShadowHours => 4,
            SummaryBand::AfternoonShadowHours => 5,
            SummaryBand::SolarEfficiencyFraction => 6,
            SummaryBand::AverageDailySolarHours => 7,
            SummaryBand::TotalAvailableSolarHours => 8,
        }
    }

    pub fn at(index: usize) -> (band: Option<SummaryBand>)
        ensures
            band == SummaryBand::spec_at(index as int),
            band.is_some() <==> index < 9,
            band matches Some(b) ==> b.spec_index() == index,
    {
        if index == 0 {
            Some(SummaryBand::TotalShadowHours)
        } else if index == 1 {
            Some(SummaryBand::AverageShadowFraction)
        } else if index == 2 {
            Some(SummaryBand::MaxConsecutiveShadowHours)
        } else if index == 3 {
            Some(SummaryBand::MorningShadowHours)
        } else if index == 4 {
            Some(SummaryBand::NoonShadowHours)
        } else if index == 5 {
            Some(SummaryBand::AfternoonShadowHours)
        } else if index == 6 {
            Some(SummaryBand::SolarEfficiencyFraction)
        } else if index == 7 {
            Some(SummaryBand::AverageDailySolarHours)
        } else if index == 8 {
            Some(SummaryBand::TotalAvailableSolarHours)
        } else {
            None
        }
    }

    pub fn description(self) -> (text: String)
        ensures
            text@ == self.spec_description(),
    {
        match self {
            SummaryBand::TotalShadowHours => "Total_Shadow_Hours".to_owned(),
            SummaryBand::AverageShadowFraction => "Average_Shadow_Fraction_(0-1)".to_owned(),
            SummaryBand::MaxConsecutiveShadowHours => "Max_Consecutive_Shadow_Hours".to_owned(),
            SummaryBand::MorningShadowHours => "Morning_Shadow_Hours".to_owned(),
            SummaryBand::NoonShadowHours => "Noon_Shadow_Hours".to_owned(),
            SummaryBand::AfternoonShadowHours => "Afternoon_Shadow_Hours".to_owned(),
            SummaryBand::SolarEfficiencyFraction => "Solar_Efficiency_Fraction_(0-1)".to_owned(),
            SummaryBand::AverageDailySolarHours => "Average_Daily_Solar_Hours".to_owned(),
            SummaryBand::TotalAvailableSolarHours => "Total_Available_Solar_Hours".to_owned(),
        }
    }

    pub fn title(self) -> (text: String)
        ensures
            text@ == self.spec_title(),
    {
        match self {
            SummaryBand::TotalShadowHours => "Total Shadow Hours".to_owned(),
            SummaryBand::AverageShadowFraction => "Average Shadow Fraction".to_owned(),
            SummaryBand::MaxConsecutiveShadowHours => "Max Consecutive Shadow Hours".to_owned(),
            SummaryBand::MorningShadowHours => "Morning Shadow Hours".to_owned(),
            SummaryBand::NoonShadowHours => "Noon Shadow Hours".to_owned(),
            SummaryBand::AfternoonShadowHours => "Afternoon Shadow Hours".to_owned(),
            SummaryBand::SolarEfficiencyFraction => "Solar Efficiency Fraction".to_owned(),
            SummaryBand::AverageDailySolarHours => "Average Daily Solar Hours".to_owned(),
            SummaryBand::TotalAvailableSolarHours => "Total Available Solar Hours".to_owned(),
        }
    }
}

/// Every instant has a band label.
pub open spec fn all_have_labels(timestamps: Seq<i64>) -> bool {
    forall|i: int| 0 <= i < timestamps.len() ==> band_label_text(#[trigger] timestamps[i] as int) is Some
}

/// `descriptions` names the bands of a results raster with these instants:
/// the nine summary bands, then the label of each instant.
pub open spec fn describes_bands(descriptions: Seq<String>, timestamps: Seq<i64>) -> bool {
    &&& descriptions.len() == 9 + timestamps.len()
    &&& forall|b: int|
        0 <= b < 9 ==> (#[trigger] descriptions[b])@ == SummaryBand::spec_at(
            b,
        )->0.spec_description()
    &&& forall|i: int|
        0 <= i < timestamps.len() ==> band_label_text(timestamps[i] as int) == Some(
            (#[trigger] descriptions[9 + i])@,
        )
}

/// The descriptions of the bands of a results raster, in band order.
pub fn band_descriptions(timestamps: &Vec<i64>) -> (out: Result<Vec<String>, ShadowError>)
    ensures
        out.is_ok() <==> all_have_labels(timestamps@),
        out matches Ok(d) ==> describes_bands(d@, timestamps@),
        out matches Err(e) ==> e is Config,
{
    let mut out: Vec<String> = Vec::new();
    let mut b: usize = 0;
    while b < 9
        invariant
            b <= 9,
            out.len() == b,
            forall|j: int|
                0 <= j < b ==> (#[trigger] out[j])@ == SummaryBand::spec_at(j)->0.spec_description(),
        decreases 9 - b,
    {
        match SummaryBand::at(b) {
            Some(band) => {
                out.push(band.description());
            },
            None => {},
        }
        b += 1;
    }
    let mut i: usize = 0;
    while i < timestamps.len()
        invariant
            i <= timestamps.len(),
            out.len() == 9 + i,
            forall|j: int|
                0 <= j < 9 ==> (#[trigger] out[j])@ == SummaryBand::spec_at(j)->0.spec_description(),
            forall|j: int|
                0 <= j < i ==> band_label_text(timestamps[j] as int) == Some(
                    (#[trigger] out[9 + j])@,
                ),
        decreases timestamps.len() - i,
    {
        match band_label(timestamps[i]) {
            Some(label) => {
                out.push(label);
            },
            None => {
                return Err(
                    ShadowError::Config("timestamp outside the calendar".to_owned()),
                );
            },
        }
        i += 1;
    }
    assert forall|j: int| 0 <= j < timestamps.len() implies band_label_text(
        #[trigger] timestamps[j] as int,
    ) is Some by {
        assert(band_label_text(timestamps[j] as int) == Some(out[9 + j]@));
    }
    Ok(out)
}

/// Number of time bands of a results raster with `n_bands` bands.
pub fn time_band_count(n_bands: usize) -> (out: Result<usize, ShadowError>)
    ensures
        out.is_ok() <==> n_bands >= 9,
        out matches Ok(n) ==> n == n_bands - 9,
        out matches Err(e) ==> e is Format,
{
    if n_bands < SUMMARY_BANDS {
        Err(ShadowError::Format("Invalid results file: missing summary layers".to_owned()))
    } else {
        Ok(n_bands - SUMMARY_BANDS)
    }
}

/// The instant of time band `i`: what its description reads as, `now` where
/// it does not read as a label.
pub open spec fn spec_band_instant(descriptions: Seq<String>, now: i64, i: int) -> int {
    match spec_label_instant(descriptions[9 + i]@) {
        Some(t) => t,
        None => now as int,
    }
}

/// The instants of the time bands of a results raster, one per band.
pub fn parse_result_timestamps(descriptions: &Vec<String>, now: i64) -> (out: Result<
    Vec<i64>,
    ShadowError,
>)
    ensures
        out.is_ok() <==> descriptions.len() >= 9,
        out matches Ok(t) ==> t.len() == descriptions.len() - 9 && forall|i: int|
            0 <= i < t.len() ==> #[trigger] t[i] == spec_band_instant(descriptions@, now, i),
        out matches Err(e) ==> e is Format,
{
    let count: usize = match time_band_count(descriptions.len()) {
        Ok(n) => n,
        Err(e) => {
            return Err(e);
        },
    };
    let mut out: Vec<i64> = Vec::new();
    let mut i: usize = 0;
    while i < count
        invariant
            descriptions.len() == count + 9,
            i <= count,
            out.len() == i,
            forall|j: int|
                0 <= j < i ==> #[trigger] out[j] == spec_band_instant(descriptions@, now, j),
        decreases count - i,
    {
        let t: i64 = match parse_band_label(descriptions[9 + i].as_str()) {
            Some(t) => t,
            None => now,
        };
        out.push(t);
        i += 1;
    }
    Ok(out)
}

/// Where the label of every instant reads back as that instant, the
/// instants read from the descriptions of a results raster are the instants
/// for which it was written, as many and in the same order.
pub proof fn law_reload_gives_instants(
    descriptions: Seq<String>,
    timestamps: Seq<i64>,
    reloaded: Seq<i64>,
    now: i64,
)
    requires
        describes_bands(descriptions, timestamps),
        forall|i: int|
            0 <= i < timestamps.len() ==> spec_label_instant(
                band_label_text(#[trigger] timestamps[i] as int)->0,
            ) == Some(timestamps[i] as int),
        reloaded.len() == descriptions.len() - 9,
        forall|i: int|
            0 <= i < reloaded.len() ==> #[trigger] reloaded[i] == spec_band_instant(
                descriptions,
                now,
                i,
            ),
    ensures
        reloaded == timestamps,
{
    assert forall|i: int| 0 <= i < timestamps.len() implies reloaded[i] == timestamps[i] by {
        assert(band_label_text(timestamps[i] as int) == Some(descriptions[9 + i]@));
    }
    assert(reloaded =~= timestamps);
}

/// The instants that the first `upto` time bands name, bands whose
/// description does not read as a label being passed over.
pub open spec fn recognized_instants(descriptions: Seq<String>, upto: int) -> Seq<i64>
    decreases upto,
{
    if upto <= 0 {
        Seq::empty()
    } else {
        match spec_label_instant(descriptions[9 + upto - 1]@) {
            Some(t) => recognized_instants(descriptions, upto - 1).push(t as i64),
            None => recognized_instants(descriptions, upto - 1),
        }
    }
}

/// The instants named by the time bands whose description reads as a label.
pub fn recognized_timestamps(descriptions: &Vec<String>) -> (out: Vec<i64>)
    ensures
        out@ == recognized_instants(
            descriptions@,
            if descriptions.len() >= 9 {
                descriptions.len() - 9
            } else {
                0
            },
        ),
{
    let mut out: Vec<i64> = Vec::new();
    if descriptions.len() < 9 {
        return out;
    }
    let count: usize = descriptions.len() - 9;
    let mut i: usize = 0;
    while i < count
        invariant
            descriptions.len() == count + 9,
            i <= count,
            out@ == recognized_instants(descriptions@, i as int),
        decreases count - i,
    {
        match parse_band_label(descriptions[9 + i].as_str()) {
            Some(t) => {
                out.push(t);
            },
            None => {},
        }
        i += 1;
    }
    out
}

/// Whether two texts are the same.
pub fn same_text(a: &str, b: &str) -> (same: bool)
    ensures
        same == (a@ == b@),
{
    let left: String = a.to_owned();
    let right: String = b.to_owned();
    left == right
}

/// The three pieces one after another.
fn join_three(a: &str, b: &str, c: &str) -> (out: String)
    ensures
        out@ == a@ + b@ + c@,
{
    a.to_owned().concat(b).concat(c)
}

/// The formats in which results are exported.
#[derive(Debug, Clone, Copy, PartialEq, Eq, Structural)]
pub enum ExportFormat {
    GeoTiff,
    Csv,
}

/// The format that a name stands for: `geotiff` or `csv`.
pub open spec fn spec_export_format(name: Seq<char>) -> Option<ExportFormat> {
    if name == "geotiff"@ {
        Some(ExportFormat::GeoTiff)
    } else if name == "csv"@ {
        Some(ExportFormat::Csv)
    } else {
        None
    }
}

/// The name of the export file: `shadows_`, the stamp, and the extension of the format.
pub open spec fn spec_export_file_name(format: ExportFormat, stamp: Seq<char>) -> Seq<char> {
    match format {
        ExportFormat::GeoTiff => "shadows_"@ + stamp + ".tif"@,
        ExportFormat::Csv => "shadows_"@ + stamp + ".csv"@,
    }
}

/// The name of the file to which results are exported in the format called
/// `format`, stamped with `stamp`; a format that is neither `geotiff` nor
/// `csv` is not supported.
pub fn export_file_name(format: &str, stamp: &str) -> (out: Result<String, ShadowError>)
    ensures
        out.is_ok() <==> spec_export_format(format@) is Some,
        out matches Ok(name) ==> name@ == spec_export_file_name(
            spec_export_format(format@)->0,
            stamp@,
        ),
        out matches Err(e) ==> e is Config && e.text() == "Unsupported format"@,
{
    if same_text(format, "geotiff") {
        Ok(join_three("shadows_", stamp, ".tif"))
    } else if same_text(format, "csv") {
        Ok(join_three("shadows_", stamp, ".csv"))
    } else {
        Err(ShadowError::Config("Unsupported format".to_owned()))
    }
}

/// What a results raster says of the analysis that wrote it.
#[derive(Debug, Clone, PartialEq, Eq)]
pub struct ResultsMetadata {
    /// Earliest instant named by a time band.
    pub start_date: i64,
    /// Latest instant named by a time band.
    pub end_date: i64,
    /// Estimated sampling interval in hours.
    pub hour_interval: Fraction,
    /// Number of time bands.
    pub total_timestamps: usize,
    /// Titles of the summary bands, in band order.
    pub summary_layers: Vec<String>,
}

/// Whether a file name extension is one of a results raster.
pub open spec fn is_results_extension(extension: Seq<char>) -> bool {
    extension == "tif"@ || extension == "tiff"@
}

/// Whole hours from `start` to `end`.
pub open spec fn whole_hours(start: int, end: int) -> int {
    (end - start) / 3_600_000_000
}

/// The sampling interval that the named instants suggest: the whole hours
/// from the earliest to the latest over the number of steps between them;
/// one hour where fewer than two instants are named.
pub open spec fn spec_estimated_interval(instants: Seq<i64>, period: AnalysisPeriod) -> Fraction {
    if instants.len() >= 2 {
        Fraction {
            num: whole_hours(period.start as int, period.end as int) as u128,
            den: (instants.len() - 1) as u128,
        }
    } else {
        Fraction { num: 1, den: 1 }
    }
}

/// The titles of the summary bands, in band order.
pub fn summary_layer_titles() -> (titles: Vec<String>)
    ensures
        titles.len() == 9,
        forall|b: int| 0 <= b < 9 ==> (#[trigger] titles[b])@ == SummaryBand::spec_at(b)->0.spec_title(),
{
    let mut titles: Vec<String> = Vec::new();
    let mut b: usize = 0;
    while b < 9
        invariant
            b <= 9,
            titles.len() == b,
            forall|j: int|
                0 <= j < b ==> (#[trigger] titles[j])@ == SummaryBand::spec_at(j)->0.spec_title(),
        decreases 9 - b,
    {
        match SummaryBand::at(b) {
            Some(band) => {
                titles.push(band.title());
            },
            None => {},
        }
        b += 1;
    }
    titles
}

/// `meta` is what a results raster with these band descriptions says of its
/// analysis, read at instant `now`.
pub open spec fn is_metadata_of(meta: &ResultsMetadata, descriptions: Seq<String>, now: i64) -> bool {
    let instants = recognized_instants(descriptions, descriptions.len() - 9);
    &&& meta.total_timestamps == descriptions.len() - 9
    &&& meta.summary_layers.len() == 9
    &&& forall|b: int|
        0 <= b < 9 ==> (#[trigger] meta.summary_layers[b])@ == SummaryBand::spec_at(
            b,
        )->0.spec_title()
    &&& if instants.len() >= 2 {
        let period = AnalysisPeriod { start: meta.start_date, end: meta.end_date };
        is_analysis_period(instants, period) && meta.hour_interval == spec_estimated_interval(
            instants,
            period,
        )
    } else {
        meta.start_date == now && meta.end_date == now && meta.hour_interval == (Fraction {
            num: 1,
            den: 1,
        })
    }
}

/// Checks that a file can be a results raster and reads what its band
/// descriptions say of the analysis.  `extension` is the extension of the
/// file name, `descriptions` holds one description per band, `now` stands in
/// for the dates where fewer than two time bands name an instant.
pub fn validate_results_file(extension: &str, descriptions: &Vec<String>, now: i64) -> (out: Result<
    ResultsMetadata,
    ShadowError,
>)
    ensures
        out.is_ok() <==> is_results_extension(extension@) && descriptions.len() >= 9,
        out matches Ok(meta) ==> is_metadata_of(&meta, descriptions@, now),
        out matches Err(e) ==> e is Format && e.text() == (if !is_results_extension(extension@) {
            "File must be a .tif or .tiff file"@
        } else {
            "Results file must have at least 9 bands (summary layers)"@
        }),
{
    if !(same_text(extension, "tif") || same_text(extension, "tiff")) {
        return Err(ShadowError::Format("File must be a .tif or .tiff file".to_owned()));
    }
    if descriptions.len() < 9 {
        return Err(
            ShadowError::Format(
                "Results file must have at least 9 bands (summary layers)".to_owned(),
            ),
        );
    }
    let instants: Vec<i64> = recognized_timestamps(descriptions);
    let summary_layers: Vec<String> = summary_layer_titles();
    let total_timestamps: usize = descriptions.len() - 9;
    if instants.len() >= 2 {
        let period: AnalysisPeriod = analysis_period(&instants);
        assert(period.start <= instants[0] <= period.end);
        let hours: i128 = ((period.end as i128) - (period.start as i128)) / 3_600_000_000;
        Ok(
            ResultsMetadata {
                start_date: period.start,
                end_date: period.end,
                hour_interval: Fraction { num: hours as u128, den: (instants.len() - 1) as u128 },
                total_timestamps,
                summary_layers,
            },
        )
    } else {
        Ok(
            ResultsMetadata {
                start_date: now,
                end_date: now,
                hour_interval: Fraction { num: 1, den: 1 },
                total_timestamps,
                summary_layers,
            },
        )
    }
}

} // verus!
