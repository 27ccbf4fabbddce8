use vstd::prelude::*;

verus! {

/// One country entry. Immutable after construction; the latitude and
/// longitude of the capital are display-only values carried as IEEE-754
/// single-precision bit patterns.
pub struct Record {
    pub id: u8,
    pub country: String,
    pub capital: String,
    pub country_code: String,
    pub capital_latitude_bits: u32,
    pub capital_longitude_bits: u32,
    pub country_audio_filename: String,
    pub capital_audio_filename: Option<String>,
}

impl Clone for Record {
    fn clone(&self) -> (res: Self)
        ensures
            res == *self,
    {
        Record {
            id: self.id,
            country: self.country.clone(),
            capital: self.capital.clone(),
            country_code: self.country_code.clone(),
            capital_latitude_bits: self.capital_latitude_bits,
            capital_longitude_bits: self.capital_longitude_bits,
            country_audio_filename: self.country_audio_filename.clone(),
            capital_audio_filename: (match &self.capital_audio_filename {
                Some(s) => Some(s.clone()),
                None => None,
            }),
        }
    }
}

} // verus!
