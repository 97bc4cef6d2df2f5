//! Weather-side data model: a day's forecast, the WMO weather-code classes,
//! and the two endpoints of the forecast provider.

use vstd::prelude::*;

use crate::bet::MAX_TEMP;

verus! {

/// Largest value of a probability expressed in thousandths.
pub const FULL_PERMILLE: i64 = 1000;

/// A forward forecast for one day, used only at placement time to lock the
/// payout ceiling.
#[derive(Clone, Copy, Debug, PartialEq)]
pub struct Forecast {
    /// Chance of rain, thousandths.
    pub rain: i64,

    /// Forecast minimum temperature, hundredths of a degree.
    pub minimum_temperature: i64,

    /// Forecast maximum temperature, hundredths of a degree.
    pub maximum_temperature: i64,

    /// Class of weather expected.
    pub weather_code: WeatherCode,
}

impl Forecast {
    /// Temperatures are physical and the rain chance is a probability. The
    /// temperature spread may still be empty, which the payout calculator
    /// rejects.
    pub open spec fn valid(self) -> bool {
        &&& -MAX_TEMP <= self.minimum_temperature <= MAX_TEMP
        &&& -MAX_TEMP <= self.maximum_temperature <= MAX_TEMP
        &&& 0 <= self.rain <= FULL_PERMILLE
    }

    /// The forecast temperature spread the calculator divides by.
    pub open spec fn spread(self) -> int {
        self.maximum_temperature - self.minimum_temperature
    }
}

/// The classes of WMO weather code the interface distinguishes.
#[derive(Clone, Copy, Debug, PartialEq, Eq, Structural)]
pub enum WeatherCode {
    Sun,
    PartialSun,
    Cloud,
    Fog,
    Drizzle,
    Rain,
    Snow,
    Lightning,
    Unknown,
}

/// Which class a raw WMO weather code falls in: each class covers the listed
/// codes, and every other code is `Unknown`.
pub open spec fn code_class(code: int) -> WeatherCode {
    if code == 0 || code == 1 {
        WeatherCode::Sun
    } else if code == 2 {
        WeatherCode::PartialSun
    } else if code == 3 {
        WeatherCode::Cloud
    } else if code == 45 || code == 48 {
        WeatherCode::Fog
    } else if code == 51 || code == 53 || code == 55 || code == 56 || code == 57 || code == 80
        || code == 81 || code == 82 {
        WeatherCode::Drizzle
    } else if code == 61 || code == 63 || code == 65 || code == 66 || code == 67 {
        WeatherCode::Rain
    } else if code == 71 || code == 73 || code == 75 || code == 77 || code == 85 || code == 86 {
        WeatherCode::Snow
    } else if code == 95 || code == 96 || code == 99 {
        WeatherCode::Lightning
    } else {
        WeatherCode::Unknown
    }
}

/// The representative code of each class, `-1` for `Unknown`.
pub open spec fn canonical_code(c: WeatherCode) -> int {
    match c {
        WeatherCode::Sun => 0,
        WeatherCode::PartialSun => 2,
        WeatherCode::Cloud => 3,
        WeatherCode::Fog => 45,
        WeatherCode::Drizzle => 51,
        WeatherCode::Rain => 61,
        WeatherCode::Snow => 71,
        WeatherCode::Lightning => 95,
        WeatherCode::Unknown => -1,
    }
}

impl WeatherCode {
    /// Classify a raw WMO weather code.
    pub fn from_code(code: i64) -> (r: WeatherCode)
        ensures
            r == code_class(code as int),
    {
        if code == 0 || code == 1 {
            WeatherCode::Sun
        } else if code == 2 {
            WeatherCode::PartialSun
        } else if code == 3 {
            WeatherCode::Cloud
        } else if code == 45 || code == 48 {
            WeatherCode::Fog
        } else if code == 51 || code == 53 || code == 55 || code == 56 || code == 57 || code == 80
            || code == 81 || code == 82 {
            WeatherCode::Drizzle
        } else if code == 61 || code == 63 || code == 65 || code == 66 || code == 67 {
            WeatherCode::Rain
        } else if code == 71 || code == 73 || code == 75 || code == 77 || code == 85 || code == 86 {
            WeatherCode::Snow
        } else if code == 95 || code == 96 || code == 99 {
            WeatherCode::Lightning
        } else {
            WeatherCode::Unknown
        }
    }

    /// The representative code of this class.
    pub fn code(&self) -> (r: i64)
        ensures
            r == canonical_code(*self),
    {
        match self {
            WeatherCode::Sun => 0,
            WeatherCode::PartialSun => 2,
            WeatherCode::Cloud => 3,
            WeatherCode::Fog => 45,
            WeatherCode::Drizzle => 51,
            WeatherCode::Rain => 61,
            WeatherCode::Snow => 71,
            WeatherCode::Lightning => 95,
            WeatherCode::Unknown => -1,
        }
    }

    /// The name of the lucide icon that depicts this class.
    pub fn to_lucide_icon(&self) -> (r: &'static str)
        ensures
            r@ == icon_name(*self),
    {
        match self {
            WeatherCode::Sun => "sun",
            WeatherCode::PartialSun => "cloud-sun",
            WeatherCode::Cloud => "cloud",
            WeatherCode::Fog => "cloud-fog",
            WeatherCode::Drizzle => "cloud-drizzle",
            WeatherCode::Rain => "cloud-rain",
            WeatherCode::Snow => "snowflake",
            WeatherCode::Lightning => "cloud-lightning",
            WeatherCode::Unknown => "circle-help",
        }
    }
}

/// The lucide icon name of each weather-code class.
pub open spec fn icon_name(c: WeatherCode) -> Seq<char> {
    match c {
        WeatherCode::Sun => "sun"@,
        WeatherCode::PartialSun => "cloud-sun"@,
        WeatherCode::Cloud => "cloud"@,
        WeatherCode::Fog => "cloud-fog"@,
        WeatherCode::Drizzle => "cloud-drizzle"@,
        WeatherCode::Rain => "cloud-rain"@,
        WeatherCode::Snow => "snowflake"@,
        WeatherCode::Lightning => "cloud-lightning"@,
        WeatherCode::Unknown => "circle-help"@,
    }
}

/// The two endpoints of the forecast provider: forward forecasts, and the
/// archive of observed weather.
#[derive(Clone, Copy, Debug, PartialEq, Eq, Structural)]
pub enum ApiSource {
    Forecast,
    Archive,
}

/// The base URL of each endpoint.
pub open spec fn source_url(s: ApiSource) -> Seq<char> {
    match s {
        ApiSource::Forecast => "https://api.open-meteo.com/v1/forecast"@,
        ApiSource::Archive => "https://archive-api.open-meteo.com/v1/archive"@,
    }
}

impl ApiSource {
    /// The base URL requests to this endpoint start from.
    pub fn url(&self) -> (r: &'static str)
        ensures
            r@ == source_url(*self),
    {
        match self {
            ApiSource::Forecast => "https://api.open-meteo.com/v1/forecast",
            ApiSource::Archive => "https://archive-api.open-meteo.com/v1/archive",
        }
    }
}

} // verus!
