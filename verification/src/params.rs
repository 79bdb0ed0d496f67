//! Kernel parameters: the `key=value` words of the boot command line, kept
//! in a hash map by name.
use vstd::prelude::*;
use vstd::string::StringSliceAdditionalSpecFns;

verus! {

/// The parameters: each name with its value, in bytes.
#[verifier::external_body]
pub struct Params {
    map: hashbrown::HashMap<Vec<u8>, Vec<u8>>,
}

/// What the parameters hold: each name with its value.
pub uninterp spec fn params_map(p: Params) -> Map<Seq<u8>, Seq<u8>>;

impl Params {
    /// hashbrown's `HashMap::new`: the map starts empty.
    #[verifier::external_body]
    pub fn new() -> (fresh: Params)
        ensures
            params_map(fresh).dom() == Set::<Seq<u8>>::empty(),
    {
        Params { map: hashbrown::HashMap::new() }
    }

    /// hashbrown's `HashMap::get`: the value stored under `key`, if any
    /// (byte vectors hash and compare by their contents).
    #[verifier::external_body]
    pub fn get(&self, key: &[u8]) -> (r: Option<&Vec<u8>>)
        ensures
            r is Some <==> params_map(*self).contains_key(key@),
            r matches Some(v) ==> v@ == params_map(*self)[key@],
    {
        self.map.get(key)
    }

    /// hashbrown's `HashMap::insert`: `value` is stored under `key`,
    /// replacing what was there.
    #[verifier::external_body]
    pub fn put(&mut self, key: &[u8], value: &[u8])
        ensures
            params_map(*final(self)) == params_map(*old(self)).insert(key@, value@),
    {
        self.map.insert(key.to_vec(), value.to_vec());
    }
}

/// The bytes that `split_ascii_whitespace` splits on: space, tab, line feed,
/// form feed and carriage return.
pub open spec fn is_ascii_ws(b: u8) -> bool {
    b == 0x20 || b == 0x09 || b == 0x0a || b == 0x0c || b == 0x0d
}

/// The position of the first `=` in `w` from `i` on, if any.
pub open spec fn first_eq(w: Seq<u8>, i: int) -> Option<int>
    decreases w.len() - i,
{
    if i < 0 || i >= w.len() {
        None
    } else if w[i] == 0x3d {
        Some(i)
    } else {
        first_eq(w, i + 1)
    }
}

/// `m` with the parameter of the word `w`: a word with an `=` names the
/// value after its first `=` by the bytes before it; any other word adds
/// nothing.
pub open spec fn add_word(w: Seq<u8>, m: Map<Seq<u8>, Seq<u8>>) -> Map<Seq<u8>, Seq<u8>> {
    match first_eq(w, 0) {
        Some(j) => m.insert(w.take(j), w.skip(j + 1)),
        None => m,
    }
}

/// `m` with the parameters of the words of `s` from `i` on, the current
/// word having started at `start`; later words win.
pub open spec fn params_from(s: Seq<u8>, i: int, start: int, m: Map<Seq<u8>, Seq<u8>>) -> Map<Seq<u8>, Seq<u8>>
    decreases s.len() - i,
{
    if i >= s.len() {
        add_word(s.subrange(start, s.len() as int), m)
    } else if is_ascii_ws(s[i]) {
        params_from(s, i + 1, i + 1, add_word(s.subrange(start, i), m))
    } else {
        params_from(s, i + 1, start, m)
    }
}

/// The parameters of the command line `s`.
pub open spec fn parse_params(s: Seq<u8>) -> Map<Seq<u8>, Seq<u8>> {
    params_from(s, 0, 0, Map::empty())
}

/// Adds the parameter of the word `w` (see `add_word`).
fn put_word(p: &mut Params, w: &[u8])
    ensures
        params_map(*final(p)) == add_word(w@, params_map(*old(p))),
{
    let mut j: usize = 0;
    while j < w.len()
        invariant
            j <= w@.len(),
            first_eq(w@, j as int) == first_eq(w@, 0),
            params_map(*p) == params_map(*old(p)),
        decreases w@.len() - j,
    {
        if w[j] == 0x3d {
            let key = vstd::slice::slice_subrange(w, 0, j);
            let value = vstd::slice::slice_subrange(w, j + 1, w.len());
            assert(key@ =~= w@.take(j as int));
            assert(value@ =~= w@.skip(j + 1));
            p.put(key, value);
            return;
        }
        j = j + 1;
    }
}

/// The parameters of the command line `params`: its words, split at ASCII
/// whitespace, that hold an `=`, each naming the value after its first `=`
/// by the bytes before it.
pub fn init(params: &str) -> (p: Params)
    ensures
        params_map(p) == parse_params(params.spec_bytes()),
{
    let s = params.as_bytes();
    let mut p = Params::new();
    assert(params_map(p) =~= Map::<Seq<u8>, Seq<u8>>::empty());
    let mut start: usize = 0;
    let mut i: usize = 0;
    while i < s.len()
        invariant
            start <= i <= s@.len(),
            params_from(s@, i as int, start as int, params_map(p)) == parse_params(s@),
        decreases s@.len() - i,
    {
        if s[i] == 0x20 || s[i] == 0x09 || s[i] == 0x0a || s[i] == 0x0c || s[i] == 0x0d {
            put_word(&mut p, vstd::slice::slice_subrange(s, start, i));
            start = i + 1;
        }
        i = i + 1;
    }
    put_word(&mut p, vstd::slice::slice_subrange(s, start, s.len()));
    p
}

/// The value of the parameter `key`, if the command line names it.
pub fn get<'a>(params: &'a Params, key: &str) -> (r: Option<&'a Vec<u8>>)
    ensures
        r is Some <==> params_map(*params).contains_key(key.spec_bytes()),
        r matches Some(v) ==> v@ == params_map(*params)[key.spec_bytes()],
{
    params.get(key.as_bytes())
}

} // verus!
