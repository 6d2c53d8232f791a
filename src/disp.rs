use crate::card::Card;
use crate::text::{lines_of, split_lines, views_of};
use vstd::prelude::*;

verus! {

/// The error of asking a catalog for art that it does not hold.
#[derive(Debug, Clone, Copy, PartialEq, Eq, Structural)]
pub struct AssetNotFoundError;

/// The pattern of a section header line: `[`, a name without `]`, `]`.
const SECTION_HEADER: &'static str = r"^\[([^\]]+)\]$";

/// The name that a header line opens a section under, if the line is a header.
pub open spec fn header_of(line: Seq<char>) -> Option<Seq<char>> {
    if line.len() >= 3 && line[0] == '[' && line.last() == ']' && (forall|i: int|
        1 <= i < line.len() - 1 ==> line[i] != ']') {
        Some(line.subrange(1, line.len() - 1))
    } else {
        None
    }
}

/// Relies on regex's `Regex::captures` with the anchored header pattern: a
/// match is the whole line, `[`, one or more characters other than `]`, `]`,
/// and the first group is what stands between the brackets.
#[verifier::external_body]
fn section_header(line: &str) -> (r: Option<String>)
    ensures
        r is Some <==> header_of(line@) is Some,
        r is Some ==> r->Some_0@ == header_of(line@)->Some_0,
{
    let re = regex::Regex::new(SECTION_HEADER).unwrap();
    re.captures(line).and_then(|c| c.get(1)).map(|m| m.as_str().to_string())
}

/// The mapping that a list of (name, art) pairs stands for; a later pair
/// overrides an earlier one with the same name.
pub open spec fn entries_map(e: Seq<(String, String)>) -> Map<Seq<char>, Seq<char>>
    decreases e.len(),
{
    if e.len() == 0 {
        Map::empty()
    } else {
        entries_map(e.drop_last()).insert(e.last().0@, e.last().1@)
    }
}

pub open spec fn keys_unique(e: Seq<(String, String)>) -> bool {
    forall|i: int, j: int| 0 <= i < j < e.len() ==> e[i].0@ != e[j].0@
}

proof fn lemma_entries_map(e: Seq<(String, String)>)
    requires
        keys_unique(e),
    ensures
        forall|i: int|
            0 <= i < e.len() ==> #[trigger] entries_map(e).contains_key(e[i].0@)
                && entries_map(e)[e[i].0@] == e[i].1@,
        forall|k: Seq<char>|
            entries_map(e).contains_key(k) ==> exists|i: int| 0 <= i < e.len() && e[i].0@ == k,
    decreases e.len(),
{
    if e.len() > 0 {
        let p = e.drop_last();
        lemma_entries_map(p);
        assert forall|k: Seq<char>| entries_map(e).contains_key(k) implies exists|i: int|
            0 <= i < e.len() && e[i].0@ == k by {
            if k != e.last().0@ {
                assert(entries_map(p).contains_key(k));
                let i = choose|i: int| 0 <= i < p.len() && p[i].0@ == k;
                assert(e[i].0@ == k);
            } else {
                assert(e[e.len() - 1].0@ == k);
            }
        }
        assert forall|i: int| 0 <= i < e.len() implies #[trigger] entries_map(e).contains_key(
            e[i].0@) && entries_map(e)[e[i].0@] == e[i].1@ by {
            assert(entries_map(e) == entries_map(p).insert(e.last().0@, e.last().1@));
            if i < e.len() - 1 {
                assert(p[i] == e[i]);
                assert(entries_map(p).contains_key(p[i].0@));
                assert(e[i].0@ != e[e.len() - 1].0@);
            }
        }
    }
}

proof fn lemma_entries_map_update(e: Seq<(String, String)>, j: int, k: String, v: String)
    requires
        keys_unique(e),
        0 <= j < e.len(),
        e[j].0@ == k@,
    ensures
        keys_unique(e.update(j, (k, v))),
        entries_map(e.update(j, (k, v))) == entries_map(e).insert(k@, v@),
{
    let u = e.update(j, (k, v));
    assert(keys_unique(u));
    lemma_entries_map(e);
    lemma_entries_map(u);
    assert forall|kk: Seq<char>| #[trigger] entries_map(u).contains_key(kk) <==> entries_map(
        e,
    ).insert(k@, v@).contains_key(kk) by {
        if entries_map(u).contains_key(kk) {
            let i = choose|i: int| 0 <= i < u.len() && u[i].0@ == kk;
            if i != j {
                assert(e[i] == u[i]);
            }
        }
        if entries_map(e).contains_key(kk) {
            let i = choose|i: int| 0 <= i < e.len() && e[i].0@ == kk;
            if i != j {
                assert(e[i] == u[i]);
            } else {
                assert(u[j].0@ == kk);
            }
        }
        if kk == k@ {
            assert(u[j].0@ == kk);
        }
    }
    assert forall|kk: Seq<char>| #[trigger] entries_map(u).contains_key(kk) implies entries_map(
        u,
    )[kk] == entries_map(e).insert(k@, v@)[kk] by {
        let i = choose|i: int| 0 <= i < u.len() && u[i].0@ == kk;
        if i != j {
            assert(e[i] == u[i]);
        }
    }
    assert(entries_map(u) =~= entries_map(e).insert(k@, v@));
}

/// The glyph art of each card asset, by asset name.
#[derive(Debug)]
pub struct CardSet {
    set: Vec<(String, String)>,
}

impl View for CardSet {
    type V = Map<Seq<char>, Seq<char>>;

    closed spec fn view(&self) -> Map<Seq<char>, Seq<char>> {
        entries_map(self.set@)
    }
}

impl CardSet {
    /// Each asset name is held once.
    pub closed spec fn wf(&self) -> bool {
        keys_unique(self.set@)
    }

    fn empty() -> (r: CardSet)
        ensures
            r.wf(),
            r@ == Map::<Seq<char>, Seq<char>>::empty(),
    {
        CardSet { set: Vec::new() }
    }

    /// The position of the entry named `name`, if there is one.
    fn find(&self, name: &String) -> (r: Option<usize>)
        requires
            self.wf(),
        ensures
            r is Some <==> self@.contains_key(name@),
            r is Some ==> r->Some_0 < self.set@.len() && self.set@[r->Some_0 as int].0@ == name@,
    {
        proof {
            lemma_entries_map(self.set@);
        }
        let mut i: usize = 0;
        while i < self.set.len()
            invariant
                self.wf(),
                i <= self.set@.len(),
                forall|j: int| 0 <= j < i ==> self.set@[j].0@ != name@,
            decreases self.set@.len() - i,
        {
            if self.set[i].0 == *name {
                proof {
                    lemma_entries_map(self.set@);
                    assert(self@.contains_key(self.set@[i as int].0@));
                }
                return Some(i);
            }
            i = i + 1;
        }
        None
    }

    /// Stores `art` under `name`, replacing what was stored there.
    fn insert(&mut self, name: String, art: String)
        requires
            old(self).wf(),
        ensures
            final(self).wf(),
            final(self)@ == old(self)@.insert(name@, art@),
    {
        match self.find(&name) {
            Some(j) => {
                proof {
                    lemma_entries_map_update(self.set@, j as int, name, art);
                }
                self.set.set(j, (name, art));
            },
            None => {
                proof {
                    lemma_entries_map(self.set@);
                }
                let ghost e = self.set@;
                self.set.push((name, art));
                proof {
                    assert(self.set@.drop_last() =~= e);
                    assert forall|i: int, j: int| 0 <= i < j < self.set@.len() implies self.set@[i].0@
                        != self.set@[j].0@ by {
                        if j == e.len() {
                            assert(e[i] == self.set@[i]);
                        }
                    }
                }
            },
        }
    }

    /// The art stored under `name`.
    pub fn get_card_by_name(&self, name: &str) -> (r: Result<String, AssetNotFoundError>)
        requires
            self.wf(),
        ensures
            r is Ok <==> self@.contains_key(name@),
            r is Ok ==> r->Ok_0@ == self@[name@],
    {
        let key = String::from_str(name);
        match self.find(&key) {
            Some(j) => {
                proof {
                    lemma_entries_map(self.set@);
                }
                Ok(self.set[j].1.clone())
            },
            None => Err(AssetNotFoundError),
        }
    }

    /// The art of `card`: found under the card's asset name, and missing for a
    /// card that has none.
    pub fn get_card_by_instance(&self, card: &Card) -> (r: Result<String, AssetNotFoundError>)
        requires
            self.wf(),
        ensures
            r is Ok <==> (asset_name(*card) is Some && self@.contains_key(
                asset_name(*card)->Some_0,
            )),
            r is Ok ==> r->Ok_0@ == self@[asset_name(*card)->Some_0],
    {
        match asset_name_of(card) {
            Some(name) => self.get_card_by_name(name),
            None => Err(AssetNotFoundError),
        }
    }
}

/// The catalog name of a card's art. The face-down card and numbers outside
/// 1 to 9 have none.
pub open spec fn asset_name(card: Card) -> Option<Seq<char>> {
    match card {
        Card::Numeric(n, _) => if n == 1 {
            Some("Card1"@)
        } else if n == 2 {
            Some("Card2"@)
        } else if n == 3 {
            Some("Card3"@)
        } else if n == 4 {
            Some("Card4"@)
        } else if n == 5 {
            Some("Card5"@)
        } else if n == 6 {
            Some("Card6"@)
        } else if n == 7 {
            Some("Card7"@)
        } else if n == 8 {
            Some("Card8"@)
        } else if n == 9 {
            Some("Card9"@)
        } else {
            None
        },
        Card::Stop(_) => Some("Stop"@),
        Card::ChangeDir(_) => Some("ChangeDir"@),
        Card::Plus(_) => Some("Plus"@),
        Card::Kah2(_) => Some("Take2"@),
        Card::Taki(_) => Some("Taki"@),
        Card::ChangeColor => Some("ChangeCol"@),
        Card::King => Some("King"@),
        Card::SuperTaki => Some("SuperTaki"@),
        Card::CardsBack => None,
    }
}

/// The catalog name of a card's art, if it has one.
pub fn asset_name_of(card: &Card) -> (r: Option<&'static str>)
    ensures
        r is Some <==> asset_name(*card) is Some,
        r is Some ==> r->Some_0@ == asset_name(*card)->Some_0,
{
    match *card {
        Card::Numeric(1, _) => Some("Card1"),
        Card::Numeric(2, _) => Some("Card2"),
        Card::Numeric(3, _) => Some("Card3"),
        Card::Numeric(4, _) => Some("Card4"),
        Card::Numeric(5, _) => Some("Card5"),
        Card::Numeric(6, _) => Some("Card6"),
        Card::Numeric(7, _) => Some("Card7"),
        Card::Numeric(8, _) => Some("Card8"),
        Card::Numeric(9, _) => Some("Card9"),
        Card::Stop(_) => Some("Stop"),
        Card::ChangeDir(_) => Some("ChangeDir"),
        Card::Plus(_) => Some("Plus"),
        Card::Kah2(_) => Some("Take2"),
        Card::Taki(_) => Some("Taki"),
        Card::ChangeColor => Some("ChangeCol"),
        Card::King => Some("King"),
        Card::SuperTaki => Some("SuperTaki"),
        _ => None,
    }
}

/// Where a scan of the catalog text stands after some of its lines: the
/// sections closed so far, the section being read, and the text read into it.
pub struct Scan {
    pub sections: Map<Seq<char>, Seq<char>>,
    pub current: Option<Seq<char>>,
    pub body: Seq<char>,
}

/// The sections with the one being read closed as well.
pub open spec fn closed_sections(st: Scan) -> Map<Seq<char>, Seq<char>> {
    match st.current {
        Some(name) => st.sections.insert(name, st.body),
        None => st.sections,
    }
}

/// A header line closes the section being read and opens a new one; any other
/// line joins the section being read, followed by a newline.
pub open spec fn scan_line(st: Scan, line: Seq<char>) -> Scan {
    match header_of(line) {
        Some(name) => Scan { sections: closed_sections(st), current: Some(name), body: Seq::empty() },
        None => Scan { sections: st.sections, current: st.current, body: st.body + line + seq!['\n'] },
    }
}

pub open spec fn scan_lines(lines: Seq<Seq<char>>) -> Scan
    decreases lines.len(),
{
    if lines.len() == 0 {
        Scan { sections: Map::empty(), current: None, body: Seq::empty() }
    } else {
        scan_line(scan_lines(lines.drop_last()), lines.last())
    }
}

/// The catalog that a text describes. Lines before the first header belong to
/// no section; a name given twice keeps the later section.
pub open spec fn catalog_of(text: Seq<char>) -> Map<Seq<char>, Seq<char>> {
    closed_sections(scan_lines(lines_of(text)))
}

spec fn name_view(o: Option<String>) -> Option<Seq<char>> {
    match o {
        Some(n) => Some(n@),
        None => None,
    }
}

/// The text that a run of art lines adds to a section: each line followed by
/// a newline.
pub open spec fn joined(ls: Seq<Seq<char>>) -> Seq<char>
    decreases ls.len(),
{
    if ls.len() == 0 {
        Seq::empty()
    } else {
        joined(ls.drop_last()) + ls.last() + seq!['\n']
    }
}

/// None of the lines is a section header.
pub open spec fn no_headers(ls: Seq<Seq<char>>) -> bool {
    forall|i: int| 0 <= i < ls.len() ==> header_of(#[trigger] ls[i]) is None
}

proof fn lemma_scan_art(prefix: Seq<Seq<char>>, art: Seq<Seq<char>>)
    requires
        no_headers(art),
    ensures
        scan_lines(prefix + art).sections == scan_lines(prefix).sections,
        scan_lines(prefix + art).current == scan_lines(prefix).current,
        scan_lines(prefix + art).body == scan_lines(prefix).body + joined(art),
    decreases art.len(),
{
    if art.len() == 0 {
        assert(prefix + art =~= prefix);
        assert(scan_lines(prefix).body + joined(art) =~= scan_lines(prefix).body);
    } else {
        let shorter = art.drop_last();
        assert(no_headers(shorter)) by {
            assert forall|i: int| 0 <= i < shorter.len() implies header_of(#[trigger] shorter[i]) is None by {
                assert(shorter[i] == art[i]);
            }
        }
        lemma_scan_art(prefix, shorter);
        assert((prefix + art).drop_last() =~= prefix + shorter);
        assert(header_of(art[art.len() - 1]) is None);
        assert(scan_lines(prefix).body + joined(art) =~= scan_lines(prefix).body + joined(shorter)
            + art.last() + seq!['\n']);
    }
}

/// The line at `i` is a header for `name`.
pub open spec fn is_header_for(ls: Seq<Seq<char>>, i: int, name: Seq<char>) -> bool {
    0 <= i < ls.len() && header_of(ls[i]) == Some(name)
}

proof fn lemma_scan_keys(ls: Seq<Seq<char>>)
    ensures
        forall|k: Seq<char>|
            closed_sections(scan_lines(ls)).contains_key(k) <==> exists|j: int|
                is_header_for(ls, j, k),
    decreases ls.len(),
{
    if ls.len() > 0 {
        let prev = ls.drop_last();
        lemma_scan_keys(prev);
        assert forall|k: Seq<char>|
            closed_sections(scan_lines(ls)).contains_key(k) <==> exists|j: int|
                is_header_for(ls, j, k) by {
            let st = scan_lines(prev);
            let c = ls[ls.len() - 1];
            assert(scan_lines(ls) == scan_line(st, c));
            match header_of(c) {
                Some(n) => {
                    assert(closed_sections(scan_lines(ls)) == closed_sections(st).insert(
                        n,
                        Seq::empty(),
                    ));
                    if n == k {
                        assert(is_header_for(ls, ls.len() - 1, k));
                    }
                },
                None => {
                    assert(closed_sections(scan_lines(ls)).dom() =~= closed_sections(st).dom());
                },
            }
            if exists|j: int| is_header_for(prev, j, k) {
                let j = choose|j: int| is_header_for(prev, j, k);
                assert(is_header_for(ls, j, k));
            }
            if exists|j: int| is_header_for(ls, j, k) {
                let j = choose|j: int| is_header_for(ls, j, k);
                if j < ls.len() - 1 {
                    assert(is_header_for(prev, j, k));
                }
            }
        }
    }
}

proof fn lemma_scan_keeps(prefix: Seq<Seq<char>>, rest: Seq<Seq<char>>, name: Seq<char>)
    requires
        scan_lines(prefix).current != Some(name),
        forall|j: int| 0 <= j < rest.len() ==> header_of(#[trigger] rest[j]) != Some(name),
    ensures
        scan_lines(prefix + rest).current != Some(name),
        closed_sections(scan_lines(prefix + rest)).contains_key(name) == closed_sections(
            scan_lines(prefix),
        ).contains_key(name),
        closed_sections(scan_lines(prefix + rest))[name] == closed_sections(
            scan_lines(prefix),
        )[name],
    decreases rest.len(),
{
    if rest.len() == 0 {
        assert(prefix + rest =~= prefix);
    } else {
        let shorter = rest.drop_last();
        lemma_scan_keeps(prefix, shorter, name);
        assert((prefix + rest).drop_last() =~= prefix + shorter);
        assert(header_of(rest[rest.len() - 1]) != Some(name));
    }
}

/// The names in a catalog are exactly the names of the header lines of its
/// text.
pub proof fn lemma_catalog_names(text: Seq<char>)
    ensures
        forall|k: Seq<char>|
            catalog_of(text).contains_key(k) <==> exists|j: int|
                is_header_for(lines_of(text), j, k),
{
    lemma_scan_keys(lines_of(text));
}

/// The art of a name is what stands between its last header and the next
/// header (or the end of the text): those lines, each followed by a newline.
/// Art under earlier headers of the same name is not kept.
pub proof fn lemma_last_section_wins(text: Seq<char>, i: int, e: int)
    requires
        0 <= i < e <= lines_of(text).len(),
        header_of(lines_of(text)[i]) is Some,
        no_headers(lines_of(text).subrange(i + 1, e)),
        e == lines_of(text).len() || header_of(lines_of(text)[e]) is Some,
        forall|j: int|
            i < j < lines_of(text).len() ==> header_of(#[trigger] lines_of(text)[j])
                != header_of(lines_of(text)[i]),
    ensures
        catalog_of(text).contains_key(header_of(lines_of(text)[i])->Some_0),
        catalog_of(text)[header_of(lines_of(text)[i])->Some_0] == joined(
            lines_of(text).subrange(i + 1, e),
        ),
{
    let ls = lines_of(text);
    let name = header_of(ls[i])->Some_0;
    let opened = ls.take(i + 1);
    let art = ls.subrange(i + 1, e);
    assert(opened.drop_last() =~= ls.take(i));
    lemma_scan_art(opened, art);
    assert(opened + art =~= ls.take(e));
    let st = scan_lines(ls.take(e));
    assert(st.body == joined(art));
    if e == ls.len() {
        assert(ls.take(e) =~= ls);
    } else {
        let closed = ls.take(e + 1);
        let rest = ls.subrange(e + 1, ls.len() as int);
        assert(closed.drop_last() =~= ls.take(e));
        assert(header_of(ls[e]) != Some(name));
        assert forall|j: int| 0 <= j < rest.len() implies header_of(#[trigger] rest[j]) != Some(
            name,
        ) by {
            assert(rest[j] == ls[e + 1 + j]);
        }
        lemma_scan_keeps(closed, rest, name);
        assert(closed + rest =~= ls);
    }
}

/// Builds catalogs from their text form.
pub struct CardSetLoader;

impl CardSetLoader {
    /// Reads a catalog from its text: lines of the form `[name]` open a
    /// section, and the lines up to the next such line are its art.
    pub fn load_from_text(text: &str) -> (r: CardSet)
        ensures
            r.wf(),
            r@ == catalog_of(text@),
    {
        let lines = split_lines(text);
        let ghost ls = views_of(lines@);
        let mut set = CardSet::empty();
        let mut current: Option<String> = None;
        let mut body = String::new();
        let mut i: usize = 0;
        proof {
            assert(ls.take(0) =~= Seq::<Seq<char>>::empty());
        }
        while i < lines.len()
            invariant
                ls == views_of(lines@),
                i <= lines@.len(),
                set.wf(),
                set@ == scan_lines(ls.take(i as int)).sections,
                name_view(current) == scan_lines(ls.take(i as int)).current,
                body@ == scan_lines(ls.take(i as int)).body,
            decreases lines@.len() - i,
        {
            let ghost st = scan_lines(ls.take(i as int));
            proof {
                assert(ls.take(i + 1).drop_last() =~= ls.take(i as int));
                assert(ls[i as int] == lines@[i as int]@);
            }
            let line = lines[i].as_str();
            match section_header(line) {
                Some(name) => {
                    let done = body;
                    body = String::new();
                    match current {
                        Some(prev) => set.insert(prev, done),
                        None => {},
                    }
                    current = Some(name);
                },
                None => {
                    body.append(line);
                    body.append("\n");
                    proof {
                        reveal_strlit("\n");
                        assert(body@ =~= st.body + ls[i as int] + seq!['\n']);
                    }
                },
            }
            i = i + 1;
        }
        proof {
            assert(ls.take(i as int) =~= ls);
        }
        match current {
            Some(prev) => set.insert(prev, body),
            None => {},
        }
        set
    }
}

} // verus!
