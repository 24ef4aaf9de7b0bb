use vstd::prelude::*;

verus! {

/// An asset that can be resolved into binary data.
pub trait ResolvableAsset {
    fn resolve(&self) -> Vec<u8>;

    fn get_name(&self) -> &str;
}

/// An asset stored on disk, named by its path relative to the directory of
/// the running executable.
#[derive(Debug, Clone)]
pub struct DiskAsset {
    path: String,
}

impl DiskAsset {
    pub closed spec fn path_view(&self) -> Seq<char> {
        self.path@
    }

    pub fn new(path: &str) -> (r: DiskAsset)
        ensures
            r.path_view() == path@,
    {
        DiskAsset { path: path.to_owned() }
    }

    /// The path relative to the executable's directory; it is also the name.
    pub fn get_name(&self) -> (r: &str)
        ensures
            r@ == self.path_view(),
    {
        self.path.as_str()
    }
}

/// An asset held in memory.
#[derive(Debug, Clone)]
pub struct MemoryAsset {
    data: Vec<u8>,
    name: String,
}

impl MemoryAsset {
    pub closed spec fn data_view(&self) -> Seq<u8> {
        self.data@
    }

    pub closed spec fn name_view(&self) -> Seq<char> {
        self.name@
    }

    pub fn new(data: Vec<u8>, name: &str) -> (r: MemoryAsset)
        ensures
            r.data_view() == data@,
            r.name_view() == name@,
    {
        MemoryAsset { data, name: name.to_owned() }
    }
}

impl ResolvableAsset for MemoryAsset {
    /// A copy of the data.
    fn resolve(&self) -> (r: Vec<u8>)
        ensures
            r@ == self.data_view(),
    {
        let mut r: Vec<u8> = Vec::new();
        let mut i: usize = 0;
        while i < self.data.len()
            invariant
                i <= self.data@.len(),
                r@ == self.data@.subrange(0, i as int),
            decreases self.data@.len() - i,
        {
            r.push(self.data[i]);
            i = i + 1;
            proof {
                assert(r@ =~= self.data@.subrange(0, i as int));
            }
        }
        proof {
            assert(self.data@.subrange(0, self.data@.len() as int) =~= self.data@);
        }
        r
    }

    fn get_name(&self) -> (r: &str)
        ensures
            r@ == self.name_view(),
    {
        self.name.as_str()
    }
}

} // verus!
