//! The closed set of sensor types, with the name, the unit and the default
//! threshold of each.
use vstd::prelude::*;
use crate::model::binary32::Binary32;
use crate::model::binary32::{
    EIGHTY, FIVE, FORTY, HUNDRED, NINE, NINETY, ONE, TEN, THIRTY, TWENTY, ZERO,
};

verus! {

pub const TEMPERATURE: &'static str = "temperature";

pub const HUMIDITY: &'static str = "humidity";

pub const WATER_LEVEL: &'static str = "water_level";

pub const PH: &'static str = "ph";

pub const SALINITY: &'static str = "salinity";

pub const RAIN: &'static str = "rain";

pub const SOIL_MOISTURE: &'static str = "soil_moisture";

/// How many sensor types there are.
pub const SENSOR_TYPE_COUNT: usize = 7;

/// The sensor types in their fixed order.
pub open spec fn sensor_types() -> Seq<Seq<char>> {
    seq![TEMPERATURE@, HUMIDITY@, WATER_LEVEL@, PH@, SALINITY@, RAIN@, SOIL_MOISTURE@]
}

/// Whether a key names one of the sensor types.
pub open spec fn is_sensor_type(key: Seq<char>) -> bool {
    ||| key == TEMPERATURE@
    ||| key == HUMIDITY@
    ||| key == WATER_LEVEL@
    ||| key == PH@
    ||| key == SALINITY@
    ||| key == RAIN@
    ||| key == SOIL_MOISTURE@
}

/// The name shown for a sensor type; `Unknown Sensor` for any other key.
pub open spec fn display_name(key: Seq<char>) -> Seq<char> {
    if key == TEMPERATURE@ {
        "Temperature"@
    } else if key == HUMIDITY@ {
        "Humidity"@
    } else if key == WATER_LEVEL@ {
        "Water Level"@
    } else if key == PH@ {
        "pH"@
    } else if key == SALINITY@ {
        "Salinity"@
    } else if key == RAIN@ {
        "Rain"@
    } else if key == SOIL_MOISTURE@ {
        "Soil Moisture"@
    } else {
        "Unknown Sensor"@
    }
}

/// The unit in which a sensor type is measured; empty where it has none,
/// and for any other key.
pub open spec fn unit(key: Seq<char>) -> Seq<char> {
    if key == TEMPERATURE@ {
        "\u{c2}\u{b0}C"@
    } else if key == HUMIDITY@ {
        "%"@
    } else if key == WATER_LEVEL@ {
        "cm"@
    } else if key == PH@ {
        "pH"@
    } else if key == SALINITY@ {
        "ppt"@
    } else if key == RAIN@ {
        ""@
    } else if key == SOIL_MOISTURE@ {
        "%"@
    } else {
        ""@
    }
}

/// The bounds that a sensor type has until others are set, the lower one
/// first; from 0 to 100 for any other key.
pub open spec fn default_threshold(key: Seq<char>) -> (Binary32, Binary32) {
    if key == TEMPERATURE@ {
        (Binary32 { bits: TEN }, Binary32 { bits: FORTY })
    } else if key == HUMIDITY@ {
        (Binary32 { bits: TWENTY }, Binary32 { bits: EIGHTY })
    } else if key == WATER_LEVEL@ {
        (Binary32 { bits: FIVE }, Binary32 { bits: NINETY })
    } else if key == PH@ {
        (Binary32 { bits: FIVE }, Binary32 { bits: NINE })
    } else if key == SALINITY@ {
        (Binary32 { bits: ZERO }, Binary32 { bits: THIRTY })
    } else if key == RAIN@ {
        (Binary32 { bits: ZERO }, Binary32 { bits: ONE })
    } else if key == SOIL_MOISTURE@ {
        (Binary32 { bits: TWENTY }, Binary32 { bits: EIGHTY })
    } else {
        (Binary32 { bits: ZERO }, Binary32 { bits: HUNDRED })
    }
}

/// Whether two strings hold the same characters.
pub fn str_eq(a: &str, b: &str) -> (same: bool)
    ensures
        same == (a@ == b@),
{
    let x = a.as_bytes();
    let y = b.as_bytes();
    proof {
        vstd::utf8::encode_utf8_decode_utf8(a@);
        vstd::utf8::encode_utf8_decode_utf8(b@);
    }
    if x.len() != y.len() {
        return false;
    }
    let mut i: usize = 0;
    while i < x.len()
        invariant
            i <= x.len(),
            x.len() == y.len(),
            x@ == vstd::utf8::encode_utf8(a@),
            y@ == vstd::utf8::encode_utf8(b@),
            forall|k: int| 0 <= k < i ==> x@[k] == y@[k],
        decreases x.len() - i,
    {
        if x[i] != y[i] {
            return false;
        }
        i += 1;
    }
    assert(x@ =~= y@);
    true
}

/// The sensor type at a place of the fixed order, where the order has that
/// place.
pub fn sensor_type_at(place: usize) -> (key: Option<&'static str>)
    ensures
        place < SENSOR_TYPE_COUNT ==> key is Some && key.unwrap()@ == sensor_types()[place as int],
        place >= SENSOR_TYPE_COUNT ==> key is None,
{
    if place == 0 {
        Some(TEMPERATURE)
    } else if place == 1 {
        Some(HUMIDITY)
    } else if place == 2 {
        Some(WATER_LEVEL)
    } else if place == 3 {
        Some(PH)
    } else if place == 4 {
        Some(SALINITY)
    } else if place == 5 {
        Some(RAIN)
    } else if place == 6 {
        Some(SOIL_MOISTURE)
    } else {
        None
    }
}

/// Whether a key names one of the sensor types.
pub fn is_known_sensor_type(sensor_type: &str) -> (known: bool)
    ensures
        known == is_sensor_type(sensor_type@),
{
    str_eq(sensor_type, TEMPERATURE) || str_eq(sensor_type, HUMIDITY) || str_eq(
        sensor_type,
        WATER_LEVEL,
    ) || str_eq(sensor_type, PH) || str_eq(sensor_type, SALINITY) || str_eq(sensor_type, RAIN)
        || str_eq(sensor_type, SOIL_MOISTURE)
}

/// The name shown for a sensor type; `Unknown Sensor` for any other key.
pub fn get_display_name(sensor_type: &str) -> (name: &'static str)
    ensures
        name@ == display_name(sensor_type@),
{
    if str_eq(sensor_type, TEMPERATURE) {
        "Temperature"
    } else if str_eq(sensor_type, HUMIDITY) {
        "Humidity"
    } else if str_eq(sensor_type, WATER_LEVEL) {
        "Water Level"
    } else if str_eq(sensor_type, PH) {
        "pH"
    } else if str_eq(sensor_type, SALINITY) {
        "Salinity"
    } else if str_eq(sensor_type, RAIN) {
        "Rain"
    } else if str_eq(sensor_type, SOIL_MOISTURE) {
        "Soil Moisture"
    } else {
        "Unknown Sensor"
    }
}

/// The unit of a sensor type; empty where it has none, and for any other
/// key.
pub fn get_unit(sensor_type: &str) -> (symbol: &'static str)
    ensures
        symbol@ == unit(sensor_type@),
{
    if str_eq(sensor_type, TEMPERATURE) {
        "\u{c2}\u{b0}C"
    } else if str_eq(sensor_type, HUMIDITY) {
        "%"
    } else if str_eq(sensor_type, WATER_LEVEL) {
        "cm"
    } else if str_eq(sensor_type, PH) {
        "pH"
    } else if str_eq(sensor_type, SALINITY) {
        "ppt"
    } else if str_eq(sensor_type, RAIN) {
        ""
    } else if str_eq(sensor_type, SOIL_MOISTURE) {
        "%"
    } else {
        ""
    }
}

/// The bounds that a sensor type has until others are set, the lower one
/// first; from 0 to 100 for any other key.
pub fn get_default_threshold(sensor_type: &str) -> (bounds: (Binary32, Binary32))
    ensures
        bounds == default_threshold(sensor_type@),
{
    if str_eq(sensor_type, TEMPERATURE) {
        (Binary32::from_bits(TEN), Binary32::from_bits(FORTY))
    } else if str_eq(sensor_type, HUMIDITY) {
        (Binary32::from_bits(TWENTY), Binary32::from_bits(EIGHTY))
    } else if str_eq(sensor_type, WATER_LEVEL) {
        (Binary32::from_bits(FIVE), Binary32::from_bits(NINETY))
    } else if str_eq(sensor_type, PH) {
        (Binary32::from_bits(FIVE), Binary32::from_bits(NINE))
    } else if str_eq(sensor_type, SALINITY) {
        (Binary32::from_bits(ZERO), Binary32::from_bits(THIRTY))
    } else if str_eq(sensor_type, RAIN) {
        (Binary32::from_bits(ZERO), Binary32::from_bits(ONE))
    } else if str_eq(sensor_type, SOIL_MOISTURE) {
        (Binary32::from_bits(TWENTY), Binary32::from_bits(EIGHTY))
    } else {
        (Binary32::from_bits(ZERO), Binary32::from_bits(HUNDRED))
    }
}

/// No two of the seven sensor types have the same key.
pub proof fn law_sensor_types_distinct()
    ensures
        sensor_types().len() == 7,
        sensor_types().no_duplicates(),
        forall|i: int| 0 <= i < 7 ==> is_sensor_type(#[trigger] sensor_types()[i]),
        forall|key: Seq<char>| is_sensor_type(key) ==> sensor_types().contains(key),
{
    reveal_strlit("temperature");
    reveal_strlit("humidity");
    reveal_strlit("water_level");
    reveal_strlit("ph");
    reveal_strlit("salinity");
    reveal_strlit("rain");
    reveal_strlit("soil_moisture");
    let s = sensor_types();
    assert(s[0] == TEMPERATURE@ && s[1] == HUMIDITY@ && s[2] == WATER_LEVEL@ && s[3] == PH@
        && s[4] == SALINITY@ && s[5] == RAIN@ && s[6] == SOIL_MOISTURE@);
    assert(s[0].len() == 11 && s[1].len() == 8 && s[2].len() == 11 && s[3].len() == 2
        && s[4].len() == 8 && s[5].len() == 4 && s[6].len() == 13);
    assert(s[0][0] == 't' && s[2][0] == 'w');
    assert(s[1][0] == 'h' && s[4][0] == 's');
}

/// In every default threshold the lower bound is below the upper one.
pub proof fn law_default_thresholds_ordered(key: Seq<char>)
    ensures
        default_threshold(key).0.below(default_threshold(key).1),
{
}

} // verus!
