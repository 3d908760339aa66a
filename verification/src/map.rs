use vstd::prelude::*;
use vstd::string::StrSliceExecFns;

verus! {

/// Names of the regions, in the order in which their LEDs are wired.
pub const INDEX_MAP: [&'static str; 72] = [
    "DECIN",
    "LIBEREC",
    "JABLONEC_NAD_NISOU",
    "ÚSTI_NAD_LABEM",
    "CESKA_LIPA",
    "SEMILY",
    "TEPLICE",
    "TRUTNOV",
    "LITOMERICE",
    "MOST",
    "CHOMUTOV",
    "JICIN",
    "NACHOD",
    "MLADA_BOLESLAV",
    "MELNIK",
    "LOUNY",
    "KARLOVY_VARY",
    "JESENIK",
    "HRADEC_KRALOVE",
    "SOKOLOV",
    "NYMBURK",
    "RYCHNOV_NAD_KNEZNOU",
    "KLADNO",
    "RAKOVNIK",
    "CHEB",
    "BRUNTAL",
    "PRAHA",
    "PARDUBICE",
    "KOLIN",
    "ÚSTI_NAD_ORLICI",
    "OPAVA",
    "SUMPERK",
    "BEROUN",
    "KUTNA_HORA",
    "CHRUDIM",
    "KARVINA",
    "OSTRAVA",
    "TACHOV",
    "SVITAVY",
    "BENESOV",
    "PLZEN",
    "ROKYCANY",
    "FRYDEK_MISTEK",
    "PRIBRAM",
    "NOVY_JICIN",
    "OLOMOUC",
    "HAVLICKŮV_BROD",
    "ZĎAR_NAD_SAZAVOU",
    "PREROV",
    "PROSTEJOV",
    "DOMAZLICE",
    "PELHRIMOV",
    "TABOR",
    "JIHLAVA",
    "KLATOVY",
    "BLANSKO",
    "VSETIN",
    "KROMERIZ",
    "PISEK",
    "VYSKOV",
    "STRAKONICE",
    "ZLIN",
    "TREBIC",
    "BRNO",
    "JINDRICHUV_HRADEC",
    "UHERSKÉ_HRADISTE",
    "PRACHATICE",
    "CESKE_BUDEJOVICE",
    "HODONIN",
    "ZNOJMO",
    "CESKY_KRUMLOV",
    "BRECLAV",
];

/// One LED's colour, one byte per channel.
#[derive(Clone, Copy, Debug, PartialEq, Eq, Structural)]
pub struct RGB8 {
    pub r: u8,
    pub g: u8,
    pub b: u8,
}

#[derive(Clone, Copy, Debug, PartialEq, Eq, Structural)]
pub enum Error {
    /// No LED has that index, or no region that name.
    NotFound,
}

/// The colour that switches an LED off.
pub open spec fn black() -> RGB8 {
    RGB8 { r: 0, g: 0, b: 0 }
}

/// `color` with each channel for which a value is given replaced by that value.
pub open spec fn with_channels(color: RGB8, r: Option<u8>, g: Option<u8>, b: Option<u8>) -> RGB8 {
    RGB8 {
        r: if let Some(v) = r { v } else { color.r },
        g: if let Some(v) = g { v } else { color.g },
        b: if let Some(v) = b { v } else { color.b },
    }
}

/// The names of a name table, each as its sequence of characters.
pub open spec fn name_views(table: Seq<&str>) -> Seq<Seq<char>> {
    Seq::new(table.len(), |i: int| table[i]@)
}

/// `i` is the first position of `names` that holds `name`.
pub open spec fn is_first_match(names: Seq<Seq<char>>, name: Seq<char>, i: int) -> bool {
    &&& 0 <= i < names.len()
    &&& names[i] == name
    &&& forall|j: int| 0 <= j < i ==> names[j] != name
}

/// `names` holds `name` somewhere.
pub open spec fn has_name(names: Seq<Seq<char>>, name: Seq<char>) -> bool {
    exists|i: int| 0 <= i < names.len() && names[i] == name
}

/// The colour buffer of the display: one colour per LED, and the name of each
/// LED's region at the same position.
pub struct ColorMap<'d> {
    index_map: &'d [&'d str],
    data: &'d mut [RGB8],
}

impl<'d> ColorMap<'d> {
    /// The colours, by LED index.
    pub closed spec fn colors(&self) -> Seq<RGB8> {
        self.data@
    }

    /// The region names, by LED index.
    pub closed spec fn names(&self) -> Seq<Seq<char>> {
        name_views(self.index_map@)
    }

    /// There is one name for each colour.
    pub open spec fn wf(&self) -> bool {
        self.names().len() == self.colors().len()
    }

    pub fn new(index_map: &'d [&'d str], data: &'d mut [RGB8]) -> (map: Self)
        requires
            index_map@.len() == old(data)@.len(),
        ensures
            map.wf(),
            map.colors() == old(data)@,
            map.names() == name_views(index_map@),
    {
        ColorMap { index_map, data }
    }

    /// Number of LEDs.
    pub fn len(&self) -> (n: usize)
        ensures
            n == self.colors().len(),
    {
        self.data.len()
    }

    /// The colour of the LED at `index`.
    pub fn get(&self, index: usize) -> (result: Result<RGB8, Error>)
        ensures
            index < self.colors().len() ==> result == Ok::<RGB8, Error>(self.colors()[index as int]),
            index >= self.colors().len() ==> result == Err::<RGB8, Error>(Error::NotFound),
    {
        if index < self.data.len() {
            Ok(self.data[index])
        } else {
            Err(Error::NotFound)
        }
    }

    /// Gives the LED at `index` the colour `color`.
    pub fn set(&mut self, index: usize, color: RGB8) -> (result: Result<(), Error>)
        ensures
            final(self).wf() == old(self).wf(),
            final(self).names() == old(self).names(),
            index < old(self).colors().len() ==> result.is_ok() && final(self).colors() == old(
                self,
            ).colors().update(index as int, color),
            index >= old(self).colors().len() ==> result == Err::<(), Error>(Error::NotFound)
                && final(self).colors() == old(self).colors(),
    {
        if index < self.data.len() {
            self.data[index] = color;
            Ok(())
        } else {
            Err(Error::NotFound)
        }
    }

    /// The index of the first LED whose region is called `name`.
    pub fn get_index_by_name(&self, name: &[char]) -> (result: Result<usize, Error>)
        ensures
            match result {
                Ok(i) => is_first_match(self.names(), name@, i as int),
                Err(e) => e == Error::NotFound && !has_name(self.names(), name@),
            },
    {
        let mut i: usize = 0;
        while i < self.index_map.len()
            invariant
                i <= self.index_map@.len(),
                forall|j: int| 0 <= j < i ==> self.names()[j] != name@,
            decreases self.index_map@.len() - i,
        {
            let current: &str = self.index_map[i];
            if str_matches(current, name) {
                return Ok(i);
            }
            i += 1;
        }
        Err(Error::NotFound)
    }

    /// Replaces the channels for which a value is given in the colour of the
    /// LED at `index`; the other channels stay.
    pub fn set_rgb(&mut self, index: usize, r: Option<u8>, g: Option<u8>, b: Option<u8>) -> (result:
        Result<(), Error>)
        ensures
            final(self).wf() == old(self).wf(),
            final(self).names() == old(self).names(),
            index < old(self).colors().len() ==> result.is_ok() && final(self).colors() == old(
                self,
            ).colors().update(
                index as int,
                with_channels(old(self).colors()[index as int], r, g, b),
            ),
            index >= old(self).colors().len() ==> result == Err::<(), Error>(Error::NotFound)
                && final(self).colors() == old(self).colors(),
    {
        if self.data.len() <= index {
            return Err(Error::NotFound);
        }
        let previous = self.data[index];
        let color = RGB8 {
            r: match r {
                Some(v) => v,
                None => previous.r,
            },
            g: match g {
                Some(v) => v,
                None => previous.g,
            },
            b: match b {
                Some(v) => v,
                None => previous.b,
            },
        };
        self.data[index] = color;
        Ok(())
    }

    /// As `set_rgb`, on the first LED whose region is called `name`.
    pub fn set_rgb_by_name(
        &mut self,
        name: &[char],
        r: Option<u8>,
        g: Option<u8>,
        b: Option<u8>,
    ) -> (result: Result<(), Error>)
        requires
            old(self).wf(),
        ensures
            final(self).wf(),
            final(self).names() == old(self).names(),
            has_name(old(self).names(), name@) ==> result.is_ok() && exists|i: int|
                #![trigger old(self).colors()[i]]
                is_first_match(old(self).names(), name@, i) && final(self).colors() == old(
                    self,
                ).colors().update(i, with_channels(old(self).colors()[i], r, g, b)),
            !has_name(old(self).names(), name@) ==> result == Err::<(), Error>(Error::NotFound)
                && final(self).colors() == old(self).colors(),
    {
        match self.get_index_by_name(name) {
            Ok(index) => self.set_rgb(index, r, g, b),
            Err(e) => Err(e),
        }
    }

    /// Switches every LED off.
    pub fn clear(&mut self)
        ensures
            final(self).wf() == old(self).wf(),
            final(self).names() == old(self).names(),
            final(self).colors() == Seq::new(old(self).colors().len(), |i: int| black()),
    {
        self.fill(RGB8 { r: 0, g: 0, b: 0 });
    }

    /// Gives every LED the colour `color`.
    pub fn fill(&mut self, color: RGB8)
        ensures
            final(self).wf() == old(self).wf(),
            final(self).names() == old(self).names(),
            final(self).colors() == Seq::new(old(self).colors().len(), |i: int| color),
    {
        let n = self.data.len();
        let mut i: usize = 0;
        while i < n
            invariant
                i <= n,
                n == self.data@.len(),
                self.index_map == old(self).index_map,
                forall|j: int| 0 <= j < i ==> self.data@[j] == color,
            decreases n - i,
        {
            self.data[i] = color;
            i += 1;
        }
        assert(self.data@ =~= Seq::new(old(self).colors().len(), |i: int| color));
    }

    /// The colours, by LED index, for writing. Their number stays.
    pub fn get_map_mut(&mut self) -> (colors: &mut [RGB8])
        ensures
            colors@ == old(self).colors(),
            final(colors)@.len() == colors@.len() ==> final(self).wf() == old(self).wf(),
            final(self).names() == old(self).names(),
            final(self).colors() == final(colors)@,
    {
        self.data
    }

    /// The colours, by LED index, for reading.
    pub fn get_map(&self) -> (colors: &[RGB8])
        ensures
            colors@ == self.colors(),
    {
        self.data
    }
}

/// Whether `text` consists of exactly the characters of `name`.
fn str_matches(text: &str, name: &[char]) -> (same: bool)
    ensures
        same == (text@ == name@),
{
    let n = text.unicode_len();
    if n != name.len() {
        return false;
    }
    let mut j: usize = 0;
    while j < n
        invariant
            j <= n,
            n == text@.len(),
            n == name@.len(),
            forall|k: int| 0 <= k < j ==> text@[k] == name@[k],
        decreases n - j,
    {
        if text.get_char(j) != name[j] {
            return false;
        }
        j += 1;
    }
    assert(text@ =~= name@);
    true
}

} // verus!
