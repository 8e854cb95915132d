//! Where a gallery keeps its files.

use vstd::prelude::*;
use vstd::string::StringExecFns;
use crate::text::lower_hex;

verus! {

/// The places of a gallery, all below its data directory.
#[derive(Debug)]
pub struct Config {
    pub data_dir: String,
    pub image_table_path: String,
}

/// The file that holds the catalog of the gallery at `data_dir`.
pub open spec fn image_table_file(data_dir: Seq<char>) -> Seq<char> {
    data_dir + "/image_table.bincode"@
}

/// The file that holds the derivative `name` of the gallery at `data_dir`.
pub open spec fn photo_file(data_dir: Seq<char>, name: Seq<char>) -> Seq<char> {
    data_dir + "/www/photos/"@ + name
}

/// The file into which an image with identity `md5` is converted before it is
/// decoded.
pub open spec fn converted_file(data_dir: Seq<char>, md5: nat) -> Seq<char> {
    data_dir + "/converted/"@ + lower_hex(md5) + "-converted.jpg"@
}

impl Config {
    pub fn new(data_dir: String) -> (config: Config)
        ensures
            config.data_dir@ == data_dir@,
            config.image_table_path@ == image_table_file(data_dir@),
    {
        let image_table_path = data_dir.clone().concat("/image_table.bincode");
        Config { data_dir, image_table_path }
    }

    /// The file that holds the derivative `name`.
    pub fn photo_path(&self, name: &str) -> (path: String)
        ensures
            path@ == photo_file(self.data_dir@, name@),
    {
        self.data_dir.clone().concat("/www/photos/").concat(name)
    }
}

} // verus!
