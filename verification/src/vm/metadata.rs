use vstd::prelude::*;

verus! {

/// The header of a compiled program: the magic value, the format version, and
/// for each of the five sections where it starts (in bytes from the start of
/// the program) and how many entries it holds.
#[derive(Copy, Clone, Debug, PartialEq, Eq)]
pub struct MetaData {
    pub magic_code: u32,
    pub version: u32,
    pub const_offset: u32,
    pub const_size: u32,
    pub thunk_offset: u32,
    pub thunk_size: u32,
    pub function_offset: u32,
    pub function_size: u32,
    pub global_function_offset: u32,
    pub global_function_size: u32,
    pub code_offset: u32,
    pub code_size: u32,
}

/// The header of no program: every field is zero.
pub open spec fn spec_empty_metadata() -> MetaData {
    MetaData {
        magic_code: 0,
        version: 0,
        const_offset: 0,
        const_size: 0,
        thunk_offset: 0,
        thunk_size: 0,
        function_offset: 0,
        function_size: 0,
        global_function_offset: 0,
        global_function_size: 0,
        code_offset: 0,
        code_size: 0,
    }
}

impl Default for MetaData {
    fn default() -> (r: Self)
        ensures
            r == spec_empty_metadata(),
    {
        MetaData {
            magic_code: 0,
            version: 0,
            const_offset: 0,
            const_size: 0,
            thunk_offset: 0,
            thunk_size: 0,
            function_offset: 0,
            function_size: 0,
            global_function_offset: 0,
            global_function_size: 0,
            code_offset: 0,
            code_size: 0,
        }
    }
}

} // verus!
