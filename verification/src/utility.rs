//! Lines of a key and its values, laid out so that they are easy to read
//! and to take apart again.

use vstd::prelude::*;
use vstd::string::StrSliceExecFns;
use vstd::string::StringExecFns;
use crate::text::texts;

verus! {

/// Writes a key and its values on one line: the key, padded to a common
/// width, a delimiter, and the values.
pub struct KeyValueFormatter {
    /// The width that keys are padded to, in characters.
    pub key_padding: usize,
    /// What stands between a key and its one value.
    pub single_delimiter: String,
    /// What stands between a key and its list of values.
    pub multi_delimiter: String,
    /// What stands between two values of a list.
    pub value_delimiter: String,
}

/// A run of spaces.
pub open spec fn spaces(n: nat) -> Seq<char> {
    Seq::new(n, |i: int| ' ')
}

/// A key followed by the spaces that bring it to a width. A key that is as
/// wide or wider stays as it is.
pub open spec fn padded(key: Seq<char>, width: nat) -> Seq<char> {
    if key.len() < width {
        key + spaces((width - key.len()) as nat)
    } else {
        key
    }
}

/// Values in a row with a delimiter between each two.
pub open spec fn joined(values: Seq<Seq<char>>, delimiter: Seq<char>) -> Seq<char>
    decreases values.len(),
{
    if values.len() == 0 {
        Seq::empty()
    } else if values.len() == 1 {
        values[0]
    } else {
        joined(values.drop_last(), delimiter) + delimiter + values.last()
    }
}

impl KeyValueFormatter {
    /// A formatter with keys padded to sixty characters, ` = ` before a
    /// single value, ` : ` before a list, and `, ` between its values.
    pub fn new() -> (formatter: KeyValueFormatter)
        ensures
            formatter.key_padding == 60,
            formatter.single_delimiter@ == " = "@,
            formatter.multi_delimiter@ == " : "@,
            formatter.value_delimiter@ == ", "@,
    {
        KeyValueFormatter {
            key_padding: 60,
            single_delimiter: " = ".to_owned(),
            multi_delimiter: " : ".to_owned(),
            value_delimiter: ", ".to_owned(),
        }
    }

    /// The key, padded with spaces to the formatter's width.
    fn pad(&self, key: &str) -> (line: String)
        ensures
            line@ == padded(key@, self.key_padding as nat),
    {
        let mut line = key.to_owned();
        let mut width: usize = key.unicode_len();
        proof {
            reveal_strlit(" ");
        }
        while width < self.key_padding
            invariant
                key@.len() <= width,
                width <= self.key_padding || width == key@.len(),
                line@ == key@ + spaces((width - key@.len()) as nat),
                " "@ == seq![' '],
            decreases self.key_padding - width,
        {
            line.append(" ");
            width += 1;
        }
        line
    }

    /// The line of a key with one value.
    pub fn format_single(&self, key: &str, value: &str) -> (line: String)
        ensures
            line@ == padded(key@, self.key_padding as nat) + self.single_delimiter@ + value@,
    {
        let mut line = self.pad(key);
        line.append(self.single_delimiter.as_str());
        line.append(value);
        line
    }

    /// The line of a key with a list of values.
    pub fn format_multi(&self, key: &str, values: &Vec<String>) -> (line: String)
        ensures
            line@ == padded(key@, self.key_padding as nat) + self.multi_delimiter@ + joined(
                texts(values@),
                self.value_delimiter@,
            ),
    {
        let mut line = self.pad(key);
        line.append(self.multi_delimiter.as_str());
        let ghost head = line@;
        let mut i: usize = 0;
        while i < values.len()
            invariant
                i <= values@.len(),
                line@ == head + joined(texts(values@).take(i as int), self.value_delimiter@),
            decreases values@.len() - i,
        {
            let ghost done = texts(values@).take(i as int);
            let ghost next = texts(values@).take(i + 1);
            assert(next.drop_last() =~= done);
            if i > 0 {
                line.append(self.value_delimiter.as_str());
            }
            line.append(values[i].as_str());
            i += 1;
        }
        assert(texts(values@).take(values@.len() as int) =~= texts(values@));
        line
    }
}

} // verus!
