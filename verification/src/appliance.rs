//! Aggregator-side records: the address-book entry a collector is reached
//! by, and the room lookup the appliance endpoints decide with.

use vstd::prelude::*;

verus! {

/// An address-book entry for one collector device: where it serves and
/// which room it reports for.
pub struct MyCollector {
    url: String,
    room: String,
}

impl MyCollector {
    /// The stored service address.
    pub closed spec fn url_spec(&self) -> Seq<char> {
        self.url@
    }

    /// The stored room label.
    pub closed spec fn room_spec(&self) -> Seq<char> {
        self.room@
    }

    pub fn new(url: String, room: String) -> (r: Self)
        ensures
            r.url_spec() == url@,
            r.room_spec() == room@,
    {
        MyCollector { url, room }
    }

    pub fn get_url(&self) -> (r: &str)
        ensures
            r@ == self.url_spec(),
    {
        self.url.as_str()
    }

    pub fn get_room(&self) -> (r: &str)
        ensures
            r@ == self.room_spec(),
    {
        self.room.as_str()
    }
}

/// The position of the first room label equal to `id`, or no value when no
/// label matches; the appliance endpoints answer for that appliance.
pub fn find_room(rooms: &Vec<String>, id: &String) -> (r: Option<usize>)
    ensures
        match r {
            Some(i) => i < rooms@.len() && rooms@[i as int]@ == id@ && forall|j: int|
                0 <= j < i ==> (#[trigger] rooms@[j])@ != id@,
            None => forall|j: int| 0 <= j < rooms@.len() ==> (#[trigger] rooms@[j])@ != id@,
        },
{
    let n: usize = rooms.len();
    let mut i: usize = 0;
    while i < n
        invariant
            n == rooms@.len(),
            i <= n,
            forall|j: int| 0 <= j < i ==> (#[trigger] rooms@[j])@ != id@,
        decreases n - i,
    {
        if rooms[i] == *id {
            return Some(i);
        }
        i = i + 1;
    }
    None
}

} // verus!
