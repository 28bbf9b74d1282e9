use vstd::prelude::*;
use crate::text::{replace, replace_all, split_whitespace, split_ws, str_eq, views};

verus! {

/// The concatenation of `lines`.
pub open spec fn joined(lines: Seq<Seq<char>>) -> Seq<char>
    decreases lines.len(),
{
    if lines.len() == 0 {
        seq![]
    } else {
        joined(lines.drop_last()) + lines.last()
    }
}

/// Collects the lines of an environment file before it is written.
pub struct ConfWriter {
    filename: String,
    text_lines: Vec<String>,
}

impl ConfWriter {
    pub closed spec fn file(&self) -> Seq<char> {
        self.filename@
    }

    pub closed spec fn lines(&self) -> Seq<Seq<char>> {
        views(self.text_lines@)
    }

    /// A writer for the file `file`, with no lines yet.
    pub fn new(file: String) -> (r: ConfWriter)
        ensures
            r.file() == file@,
            r.lines() == Seq::<Seq<char>>::empty(),
    {
        let r = ConfWriter { filename: file, text_lines: Vec::new() };
        assert(r.lines() =~= Seq::<Seq<char>>::empty());
        r
    }

    pub fn push_line(&mut self, line: String)
        ensures
            final(self).file() == old(self).file(),
            final(self).lines() == old(self).lines().push(line@),
    {
        self.text_lines.push(line);
        assert(self.lines() =~= old(self).lines().push(line@));
    }

    /// The name of the file to write.
    pub fn filename(&self) -> (r: &String)
        ensures
            r@ == self.file(),
    {
        &self.filename
    }

    /// The text to write: the lines one after the other.
    pub fn contents(&self) -> (r: String)
        ensures
            r@ == joined(self.lines()),
    {
        let mut s = String::new();
        let mut i: usize = 0;
        assert(self.lines().take(0) =~= Seq::<Seq<char>>::empty());
        while i < self.text_lines.len()
            invariant
                i <= self.text_lines@.len(),
                s@ == joined(self.lines().take(i as int)),
            decreases self.text_lines@.len() - i,
        {
            s.append(self.text_lines[i].as_str());
            proof {
                let t = self.lines().take(i + 1);
                assert(t.drop_last() =~= self.lines().take(i as int));
            }
            i = i + 1;
        }
        assert(self.lines().take(i as int) =~= self.lines());
        s
    }
}

/// Where a word occurs: the file (by position), the line and the word.
pub type WordAt = (nat, Seq<char>, Seq<char>);

/// The words of the line `l` of the file `f`, in order.
pub open spec fn line_words(f: nat, l: Seq<char>) -> Seq<WordAt> {
    split_ws(l).map_values(|w: Seq<char>| (f, l, w))
}

/// The words of the lines `lines` of the file `f`, in order.
pub open spec fn file_words(f: nat, lines: Seq<Seq<char>>) -> Seq<WordAt>
    decreases lines.len(),
{
    if lines.len() == 0 {
        seq![]
    } else {
        file_words(f, lines.drop_last()) + line_words(f, lines.last())
    }
}

/// The words of the files `files` (each given by its lines), in order.
pub open spec fn all_words(files: Seq<Seq<Seq<char>>>) -> Seq<WordAt>
    decreases files.len(),
{
    if files.len() == 0 {
        seq![]
    } else {
        all_words(files.drop_last()) + file_words((files.len() - 1) as nat, files.last())
    }
}

/// The position of the first occurrence of the word `w` in `ws`.
pub open spec fn first_word(ws: Seq<WordAt>, w: Seq<char>) -> Option<int>
    decreases ws.len(),
{
    if ws.len() == 0 {
        None
    } else {
        match first_word(ws.drop_last(), w) {
            Some(i) => Some(i),
            None => if ws.last().2 == w {
                Some(ws.len() - 1)
            } else {
                None
            },
        }
    }
}

/// The line that holds the value of the parameter `param` in the files
/// `files`: the line of the word that follows the first occurrence of
/// `param`, with its file; when `param` is the very last word, an empty line
/// in the last file; `None` when `param` does not occur.
pub open spec fn located(files: Seq<Seq<Seq<char>>>, param: Seq<char>) -> Option<(nat, Seq<char>)> {
    let ws = all_words(files);
    match first_word(ws, param) {
        None => None,
        Some(i) => if i + 1 < ws.len() {
            Some((ws[i + 1].0, ws[i + 1].1))
        } else {
            Some(((files.len() - 1) as nat, seq![]))
        },
    }
}

pub open spec fn files_view(files: Seq<Vec<String>>) -> Seq<Seq<Seq<char>>> {
    files.map_values(|ls: Vec<String>| views(ls@))
}

/// The words of all the files, in order, each with its file and line.
fn flatten(files: &Vec<Vec<String>>) -> (r: Vec<(usize, String, String)>)
    ensures
        r@.map_values(|e: (usize, String, String)| (e.0 as nat, e.1@, e.2@)) == all_words(files_view(files@)),
{
    let ghost fv = files_view(files@);
    let mut out: Vec<(usize, String, String)> = Vec::new();
    let mut fi: usize = 0;
    assert(fv.take(0) =~= Seq::<Seq<Seq<char>>>::empty());
    while fi < files.len()
        invariant
            fv == files_view(files@),
            fi <= files@.len(),
            out@.map_values(|e: (usize, String, String)| (e.0 as nat, e.1@, e.2@)) == all_words(fv.take(fi as int)),
        decreases files@.len() - fi,
    {
        let lines = &files[fi];
        let ghost base = all_words(fv.take(fi as int));
        let mut li: usize = 0;
        assert(views(lines@).take(0) =~= Seq::<Seq<char>>::empty());
        assert(base + file_words(fi as nat, views(lines@).take(0)) =~= base);
        while li < lines.len()
            invariant
                fv == files_view(files@),
                fi < files@.len(),
                lines@ == files@[fi as int]@,
                base == all_words(fv.take(fi as int)),
                li <= lines@.len(),
                out@.map_values(|e: (usize, String, String)| (e.0 as nat, e.1@, e.2@)) == base + file_words(
                    fi as nat,
                    views(lines@).take(li as int),
                ),
            decreases lines@.len() - li,
        {
            let line = &lines[li];
            let words = split_whitespace(line.as_str());
            let ghost before = out@.map_values(|e: (usize, String, String)| (e.0 as nat, e.1@, e.2@));
            let mut wi: usize = 0;
            while wi < words.len()
                invariant
                    wi <= words@.len(),
                    views(words@) == split_ws(line@),
                    out@.map_values(|e: (usize, String, String)| (e.0 as nat, e.1@, e.2@)) == before + line_words(
                        fi as nat,
                        line@,
                    ).take(wi as int),
                decreases words@.len() - wi,
            {
                let ghost prev = out@.map_values(|e: (usize, String, String)| (e.0 as nat, e.1@, e.2@));
                out.push((fi, line.clone(), words[wi].clone()));
                proof {
                    assert(out@.map_values(|e: (usize, String, String)| (e.0 as nat, e.1@, e.2@)) =~= prev.push(
                        (fi as nat, line@, words@[wi as int]@),
                    ));
                    assert(line_words(fi as nat, line@).take(wi + 1) =~= line_words(fi as nat, line@).take(
                        wi as int,
                    ).push((fi as nat, line@, words@[wi as int]@)));
                }
                wi = wi + 1;
            }
            proof {
                assert(line_words(fi as nat, line@).take(wi as int) =~= line_words(fi as nat, line@));
                let t = views(lines@).take(li + 1);
                assert(t.drop_last() =~= views(lines@).take(li as int));
                assert(t.last() == line@);
            }
            li = li + 1;
        }
        proof {
            assert(views(lines@).take(li as int) =~= views(lines@));
            let t = fv.take(fi + 1);
            assert(t.drop_last() =~= fv.take(fi as int));
            assert(t.last() == views(lines@));
        }
        fi = fi + 1;
    }
    assert(fv.take(fi as int) =~= fv);
    out
}

/// Finds the line that holds the value of the parameter `param` in the
/// files `files` (each given by its lines, in the order of the directory):
/// the file's position and the line.
pub fn locate_param(files: &Vec<Vec<String>>, param: &str) -> (r: Option<(usize, String)>)
    ensures
        match r {
            None => located(files_view(files@), param@) is None,
            Some((f, l)) => located(files_view(files@), param@) == Some((f as nat, l@)),
        },
{
    let ws = flatten(files);
    let ghost wv = ws@.map_values(|e: (usize, String, String)| (e.0 as nat, e.1@, e.2@));
    let mut i: usize = 0;
    assert(wv.take(0) =~= Seq::<WordAt>::empty());
    while i < ws.len()
        invariant
            wv == ws@.map_values(|e: (usize, String, String)| (e.0 as nat, e.1@, e.2@)),
            wv == all_words(files_view(files@)),
            i <= ws@.len(),
            first_word(wv.take(i as int), param@) is None,
        decreases ws@.len() - i,
    {
        proof {
            let t = wv.take(i + 1);
            assert(t.drop_last() =~= wv.take(i as int));
            assert(t.last() == wv[i as int]);
        }
        if str_eq(ws[i].2.as_str(), param) {
            proof {
                lemma_first_word_grows(wv, param@, i + 1, wv.len() as int);
                assert(wv.take(wv.len() as int) =~= wv);
            }
            if i + 1 < ws.len() {
                return Some((ws[i + 1].0, ws[i + 1].1.clone()));
            } else {
                if files.len() == 0 {
                    proof {
                        assert(files_view(files@) =~= Seq::<Seq<Seq<char>>>::empty());
                    }
                    return None;
                }
                return Some((files.len() - 1, String::new()));
            }
        }
        i = i + 1;
    }
    assert(wv.take(i as int) =~= wv);
    None
}

proof fn lemma_first_word_grows(ws: Seq<WordAt>, w: Seq<char>, k: int, m: int)
    requires
        0 <= k <= m <= ws.len(),
        first_word(ws.take(k), w) is Some,
    ensures
        first_word(ws.take(m), w) == first_word(ws.take(k), w),
    decreases m - k,
{
    if m > k {
        lemma_first_word_grows(ws, w, k, m - 1);
        assert(ws.take(m).drop_last() =~= ws.take(m - 1));
    }
}

/// The contents `contents` of a configuration file with every occurrence of
/// the line `old_line` replaced by `PARAM VALUE`.
pub fn rewrite_contents(contents: &str, old_line: &str, param: &str, value: &str) -> (r: String)
    ensures
        r@ == replace_all(contents@, old_line@, param@ + " "@ + value@),
{
    let mut line = param.to_owned();
    line.append(" ");
    line.append(value);
    replace(contents, old_line, line.as_str())
}

} // verus!
