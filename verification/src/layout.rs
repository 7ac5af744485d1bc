//! The fields that documents have beside the columns of the table.

use crate::text;
use vstd::prelude::*;
use vstd::string::*;

verus! {

/// A point field, and the columns that its coordinates come from.
pub struct GeoField {
    pub name: String,
    pub longitude: String,
    pub latitude: String,
}

/// A `GeoField` as mathematics sees it.
#[verifier::ext_equal]
pub struct GeoModel {
    pub name: Seq<char>,
    pub longitude: Seq<char>,
    pub latitude: Seq<char>,
}

impl View for GeoField {
    type V = GeoModel;

    open spec fn view(&self) -> GeoModel {
        GeoModel {
            name: self.name@,
            longitude: self.longitude@,
            latitude: self.latitude@,
        }
    }
}

/// A text field that combines other fields of the document.
pub struct CatchAll {
    pub name: String,
    pub members: Vec<String>,
    pub separator: String,
}

/// A `CatchAll` as mathematics sees it.
#[verifier::ext_equal]
pub struct CatchAllModel {
    pub name: Seq<char>,
    pub members: Seq<Seq<char>>,
    pub separator: Seq<char>,
}

impl View for CatchAll {
    type V = CatchAllModel;

    open spec fn view(&self) -> CatchAllModel {
        CatchAllModel {
            name: self.name@,
            members: text::texts(self.members@),
            separator: self.separator@,
        }
    }
}

/// The fields that documents have beside the columns of the table.
pub struct Layout {
    pub geo: Option<GeoField>,
    pub catchalls: Vec<CatchAll>,
}

/// A `Layout` as mathematics sees it.
#[verifier::ext_equal]
pub struct LayoutModel {
    pub geo: Option<GeoModel>,
    pub catchalls: Seq<CatchAllModel>,
}

/// What each combined field of a list is.
pub open spec fn models(catchalls: Seq<CatchAll>) -> Seq<CatchAllModel> {
    catchalls.map_values(|c: CatchAll| c@)
}

impl View for Layout {
    type V = LayoutModel;

    open spec fn view(&self) -> LayoutModel {
        LayoutModel {
            geo: match self.geo {
                Some(geo) => Some(geo@),
                None => None,
            },
            catchalls: models(self.catchalls@),
        }
    }
}

impl LayoutModel {
    /// A field of that name is added to the columns of the table.
    pub open spec fn adds(self, name: Seq<char>) -> bool {
        ||| self.geo is Some && self.geo->0.name == name
        ||| exists|i: int| 0 <= i < self.catchalls.len() && (#[trigger] self.catchalls[i]).name == name
    }
}

impl Layout {
    /// Whether a field of that name is added to the columns of the table.
    pub fn adds(&self, name: &str) -> (r: bool)
        ensures
            r == self@.adds(name@),
            r <==> (self.geo is Some && self.geo->0.name@ == name@) || (exists|i: int|
                0 <= i < self.catchalls@.len() && (#[trigger] self.catchalls@[i]).name@ == name@),
    {
        proof {
            law_layout_is_seen(*self, name@);
        }
        if let Some(geo) = &self.geo {
            if text::same_text(geo.name.as_str(), name) {
                return true;
            }
        }
        let mut i: usize = 0;
        while i < self.catchalls.len()
            invariant
                i <= self.catchalls@.len(),
                !(self@.geo is Some && self@.geo->0.name == name@),
                forall|j: int| 0 <= j < i ==> (#[trigger] self@.catchalls[j]).name != name@,
            decreases self.catchalls@.len() - i,
        {
            if text::same_text(self.catchalls[i].name.as_str(), name) {
                assert(self@.catchalls[i as int].name == name@);
                return true;
            }
            assert(self@.catchalls[i as int].name != name@);
            i += 1;
        }
        false
    }
}

/// What stands between the members of a combined field of that name.
pub open spec fn separator_of(name: Seq<char>) -> Seq<char> {
    if name == "id_catchall"@ {
        ","@
    } else {
        " "@
    }
}

/// A combined field of that name with those members.
pub open spec fn combined(name: Seq<char>, members: Seq<Seq<char>>) -> CatchAllModel {
    CatchAllModel { name, members, separator: separator_of(name) }
}

/// A combined field of that name with those members.
fn combine(name: String, members: Vec<String>) -> (r: CatchAll)
    ensures
        r@ == combined(name@, text::texts(members@)),
{
    let separator = if text::same_text(name.as_str(), "id_catchall") {
        String::from_str(",")
    } else {
        String::from_str(" ")
    };
    CatchAll { name, members, separator }
}

/// The combined fields that a list of segments describes. A segment `name=a,b` starts a combined
/// field, a segment without an equals sign adds members to the one before it, and an empty
/// segment adds nothing. Nothing comes out where members have no field to go to.
pub open spec fn described(segments: Seq<Seq<char>>) -> Option<Seq<CatchAllModel>>
    decreases segments.len(),
{
    if segments.len() == 0 {
        Some(seq![])
    } else {
        match described(segments.drop_last()) {
            None => None,
            Some(known) => {
                let segment = segments.last();
                let at = text::position(segment, '=');
                if segment.len() == 0 {
                    Some(known)
                } else if at < segment.len() {
                    Some(
                        known.push(
                            combined(segment.take(at), text::pieces(segment.skip(at + 1), ',')),
                        ),
                    )
                } else if known.len() == 0 {
                    None
                } else {
                    Some(
                        known.drop_last().push(
                            combined(
                                known.last().name,
                                known.last().members + text::pieces(segment, ','),
                            ),
                        ),
                    )
                }
            },
        }
    }
}

/// The combined fields that a text such as `all=a,b;other=c` describes.
pub open spec fn catchalls_of(list: Seq<char>) -> Option<Seq<CatchAllModel>> {
    described(text::pieces(list, ';'))
}

/// Reads a list of combined fields; `None` where members stand before the first field.
pub fn parse_catchalls(list: &str) -> (r: Option<Vec<CatchAll>>)
    ensures
        match r {
            Some(found) => catchalls_of(list@) == Some(models(found@)),
            None => catchalls_of(list@) is None,
        },
{
    let segments = text::split(list, ';');
    let ghost all = text::texts(segments@);
    let mut out: Vec<CatchAll> = Vec::new();
    let mut i: usize = 0;
    assert(models(out@) =~= seq![]);
    assert(all.take(0) =~= seq![]);
    while i < segments.len()
        invariant
            i <= segments@.len(),
            all == text::texts(segments@),
            all == text::pieces(list@, ';'),
            described(all.take(i as int)) == Some(models(out@)),
        decreases segments@.len() - i,
    {
        let ghost known = models(out@);
        proof {
            assert(all.take(i + 1).drop_last() =~= all.take(i as int));
            assert(all.take(i + 1).last() == segments@[i as int]@);
        }
        let segment = segments[i].as_str();
        let at: usize = text::find(segment, '=');
        let size: usize = segment.unicode_len();
        if size > 0 {
            if at < size {
                let name = segment.substring_char(0, at).to_owned();
                let rest = segment.substring_char(at + 1, size);
                out.push(combine(name, text::split(rest, ',')));
                proof {
                    assert(segment@.subrange(0, at as int) =~= segment@.take(at as int));
                    assert(segment@.subrange(at + 1, size as int) =~= segment@.skip(at + 1));
                    assert(models(out@) =~= known.push(out@.last()@));
                }
            } else {
                match out.pop() {
                    Some(last) => {
                        let mut members = last.members;
                        let mut more = text::split(segment, ',');
                        let ghost both = text::texts(members@) + text::texts(more@);
                        members.append(&mut more);
                        assert(text::texts(members@) =~= both);
                        assert(known.last() == last@);
                        out.push(combine(last.name, members));
                        assert(models(out@) =~= known.drop_last().push(out@.last()@));
                    },
                    None => {
                        proof {
                            assert(known.len() == 0);
                            lemma_described_none(all, i + 1);
                        }
                        return None;
                    },
                }
            }
        }
        i += 1;
    }
    assert(all.take(i as int) =~= all);
    Some(out)
}

/// Where the first segments describe nothing, all of them describe nothing.
proof fn lemma_described_none(segments: Seq<Seq<char>>, k: int)
    requires
        0 <= k <= segments.len(),
        described(segments.take(k)) is None,
    ensures
        described(segments) is None,
    decreases segments.len(),
{
    if k == segments.len() {
        assert(segments.take(k) =~= segments);
    } else {
        assert(segments.drop_last().take(k) =~= segments.take(k));
        lemma_described_none(segments.drop_last(), k);
    }
}

/// What mathematics sees of a point field and of a combined field is what they hold.
pub proof fn law_fields_are_seen(geo: GeoField, catchall: CatchAll, i: int)
    ensures
        geo@.name == geo.name@,
        geo@.longitude == geo.longitude@,
        geo@.latitude == geo.latitude@,
        catchall@.name == catchall.name@,
        catchall@.separator == catchall.separator@,
        catchall@.members.len() == catchall.members@.len(),
        0 <= i < catchall.members@.len() ==> catchall@.members[i] == catchall.members@[i]@,
{
}

/// A layout adds the names of its point field and of its combined fields, and no others.
pub proof fn law_layout_is_seen(added: Layout, name: Seq<char>)
    ensures
        added@.geo is Some <==> added.geo is Some,
        added.geo is Some ==> added@.geo->0 == added.geo->0@,
        added@.catchalls.len() == added.catchalls@.len(),
        forall|i: int|
            0 <= i < added.catchalls@.len() ==> #[trigger] added@.catchalls[i]
                == added.catchalls@[i]@,
        added@.adds(name) <==> (added.geo is Some && added.geo->0.name@ == name) || (exists|i: int|
            0 <= i < added.catchalls@.len() && (#[trigger] added.catchalls@[i]).name@ == name),
{
    if exists|i: int| 0 <= i < added.catchalls@.len() && (#[trigger] added.catchalls@[i]).name@ == name {
        let i = choose|i: int|
            0 <= i < added.catchalls@.len() && (#[trigger] added.catchalls@[i]).name@ == name;
        assert(added@.catchalls[i].name == name);
    }
    if exists|i: int| 0 <= i < added@.catchalls.len() && (#[trigger] added@.catchalls[i]).name == name {
        let i = choose|i: int|
            0 <= i < added@.catchalls.len() && (#[trigger] added@.catchalls[i]).name == name;
        assert(added.catchalls@[i].name@ == name);
    }
}

/// The members of `id_catchall` have commas between them, and those of any other field spaces.
pub proof fn law_separators(name: Seq<char>)
    ensures
        name == "id_catchall"@ ==> separator_of(name) == seq![','],
        name != "id_catchall"@ ==> separator_of(name) == seq![' '],
{
    reveal_strlit(",");
    reveal_strlit(" ");
    assert(","@ =~= seq![',']);
    assert(" "@ =~= seq![' ']);
}

/// A list is read segment by segment, with a semicolon between them.
proof fn lemma_one_more_segment(list: Seq<char>, segment: Seq<char>)
    requires
        !segment.contains(';'),
    ensures
        catchalls_of(list + seq![';'] + segment) == described(
            text::pieces(list, ';').push(segment),
        ),
{
    text::law_pieces_of_both(list, segment, ';');
    assert(text::pieces(list, ';') + seq![segment] =~= text::pieces(list, ';').push(segment));
}

/// An empty list has no combined fields, and a list may start or end in a semicolon.
pub proof fn law_empty_segments_add_nothing(list: Seq<char>)
    ensures
        catchalls_of(seq![]) == Some(Seq::<CatchAllModel>::empty()),
        catchalls_of(list + seq![';']) == catchalls_of(list),
        !list.contains(';') ==> catchalls_of(seq![';'] + list) == catchalls_of(list),
{
    let none = Seq::<char>::empty();
    text::law_pieces_of_both(list, none, ';');
    text::law_pieces_of_both(none, list, ';');
    let segments = text::pieces(list, ';');
    lemma_one_more_segment(list, none);
    assert(list + seq![';'] + none =~= list + seq![';']);
    assert(segments.push(none).drop_last() =~= segments);
    assert(text::pieces(none, ';') =~= seq![none]);
    assert(seq![none].drop_last() =~= seq![]);
    assert(described(seq![]) == Some(Seq::<CatchAllModel>::empty()));
    assert(described(seq![none]) == Some(Seq::<CatchAllModel>::empty()));
    if !list.contains(';') {
        lemma_one_more_segment(none, list);
        assert(none + seq![';'] + list =~= seq![';'] + list);
        assert(seq![none].push(list).drop_last() =~= seq![none]);
        assert(seq![list].drop_last() =~= seq![]);
    }
}

/// A segment with an equals sign adds a combined field to a list: the name is what stands before the
/// first equals sign, and the members are what stands behind it, between commas. The fields before
/// it stay as they are.
pub proof fn law_segment_starts_field(list: Seq<char>, name: Seq<char>, members: Seq<char>)
    requires
        catchalls_of(list) is Some,
        !name.contains('=') && !name.contains(';') && !members.contains(';'),
    ensures
        catchalls_of(list + seq![';'] + (name + seq!['='] + members)) matches Some(found) && {
            &&& found.len() == catchalls_of(list)->0.len() + 1
            &&& found.drop_last() == catchalls_of(list)->0
            &&& found.last().name == name
            &&& found.last().separator == separator_of(name)
            &&& text::joined(found.last().members, seq![',']) == members
            &&& forall|i: int|
                0 <= i < found.last().members.len() ==> !(
                #[trigger] found.last().members[i]).contains(',')
        },
{
    let segment = name + seq!['='] + members;
    let size = name.len() as int;
    let segments = text::pieces(list, ';');
    let known = catchalls_of(list)->0;
    assert forall|i: int| 0 <= i < segment.len() implies segment[i] != ';' by {
        if i < size {
            assert(name.contains(name[i]));
        } else if i > size {
            assert(members.contains(members[i - size - 1]));
        }
    }
    lemma_one_more_segment(list, segment);
    assert(segments.push(segment).drop_last() =~= segments);
    text::law_position(segment, '=');
    let at = text::position(segment, '=');
    assert(at == size) by {
        if at < size {
            assert(segment[at] == name[at]);
            assert(name.contains(name[at]));
        } else if at > size {
            assert(segment[size] == '=');
        }
    }
    assert(segment.take(size) =~= name);
    assert(segment.skip(size + 1) =~= members);
    text::law_pieces(members, ',');
    let found = catchalls_of(list + seq![';'] + segment)->0;
    assert(found.drop_last() =~= known);
}

/// A segment without an equals sign adds members to the last combined field of a list: what stands
/// between its commas. It is an error where there is no field yet, and what is wrong with a list
/// stays wrong with more segments.
pub proof fn law_segment_adds_members(list: Seq<char>, segment: Seq<char>)
    requires
        segment.len() > 0,
        !segment.contains('=') && !segment.contains(';'),
    ensures
        catchalls_of(list) is None ==> catchalls_of(list + seq![';'] + segment) is None,
        catchalls_of(list) == Some(Seq::<CatchAllModel>::empty()) ==> catchalls_of(
            list + seq![';'] + segment,
        ) is None,
        catchalls_of(list) is Some && catchalls_of(list)->0.len() > 0 ==> {
            let known = catchalls_of(list)->0;
            &&& catchalls_of(list + seq![';'] + segment) is Some
            &&& catchalls_of(list + seq![';'] + segment)->0.len() == known.len()
            &&& catchalls_of(list + seq![';'] + segment)->0.drop_last() == known.drop_last()
            &&& catchalls_of(list + seq![';'] + segment)->0.last().name == known.last().name
            &&& catchalls_of(list + seq![';'] + segment)->0.last().separator == separator_of(
                known.last().name,
            )
            &&& catchalls_of(list + seq![';'] + segment)->0.last().members.take(
                known.last().members.len() as int,
            ) == known.last().members
            &&& text::joined(
                catchalls_of(list + seq![';'] + segment)->0.last().members.skip(
                    known.last().members.len() as int,
                ),
                seq![','],
            ) == segment
            &&& forall|i: int|
                known.last().members.len() <= i < catchalls_of(
                    list + seq![';'] + segment,
                )->0.last().members.len() ==> !(#[trigger] catchalls_of(
                    list + seq![';'] + segment,
                )->0.last().members[i]).contains(',')
        },
{
    let segments = text::pieces(list, ';');
    lemma_one_more_segment(list, segment);
    assert(segments.push(segment).drop_last() =~= segments);
    text::law_position(segment, '=');
    let at = text::position(segment, '=');
    if at < segment.len() {
        assert(segment.contains(segment[at]));
    }
    text::law_pieces(segment, ',');
    if catchalls_of(list) is Some && catchalls_of(list)->0.len() > 0 {
        let known = catchalls_of(list)->0;
        let found = catchalls_of(list + seq![';'] + segment)->0;
        let more = text::pieces(segment, ',');
        let size = known.last().members.len() as int;
        assert(found.drop_last() =~= known.drop_last());
        assert(found.last().members == known.last().members + more);
        assert(found.last().members.take(size) =~= known.last().members);
        assert(found.last().members.skip(size) =~= more);
        assert forall|i: int| size <= i < found.last().members.len() implies !(
        #[trigger] found.last().members[i]).contains(',') by {
            assert(found.last().members[i] == more[i - size]);
        }
    }
}

} // verus!
