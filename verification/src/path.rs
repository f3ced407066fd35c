//! A trace as the text of a vector path.
//!
//! The numbers of a path are written by the caller; this module lays them
//! out. A path is the letter `M` followed by the points, each led by a single
//! space, the two coordinates of a point parted by a comma.

use vstd::prelude::*;
use vstd::string::StringExecFns;

verus! {

/// The texts of the coordinates of each point.
pub open spec fn texts(points: Seq<(String, String)>) -> Seq<(Seq<char>, Seq<char>)> {
    Seq::new(points.len(), |i: int| (points[i].0@, points[i].1@))
}

/// One point of a path: a space, the first coordinate, a comma, the second.
pub open spec fn point_text(point: (Seq<char>, Seq<char>)) -> Seq<char> {
    seq![' '] + point.0 + seq![','] + point.1
}

/// The points of a path, one after the other.
pub open spec fn points_text(points: Seq<(Seq<char>, Seq<char>)>) -> Seq<char>
    decreases points.len(),
{
    if points.len() == 0 {
        Seq::empty()
    } else {
        points_text(points.drop_last()) + point_text(points.last())
    }
}

/// A path: the letter `M`, then the points.
pub open spec fn path_text(points: Seq<(Seq<char>, Seq<char>)>) -> Seq<char> {
    seq!['M'] + points_text(points)
}

/// A path in its picture: a drawing of 500 by 500 that holds the one path,
/// stroked in black two units wide and not filled.
pub open spec fn picture_text(path: Seq<char>) -> Seq<char> {
    "<svg xmlns=\"http://www.w3.org/2000/svg\" width=\"500\" height=\"500\"><path d=\""@ + path
        + "\" stroke=\"black\" fill=\"none\" stroke-width=\"2\"/></svg>"@
}

/// Lays out the points of a trace as a path.
pub fn path_data(points: &Vec<(String, String)>) -> (path: String)
    ensures
        path@ == path_text(texts(points@)),
{
    let mut path = String::from_str("M");
    proof {
        reveal_strlit("M");
        reveal_strlit(" ");
        reveal_strlit(",");
        assert("M"@ =~= seq!['M']);
        assert(" "@ =~= seq![' ']);
        assert(","@ =~= seq![',']);
        assert(path@ =~= path_text(texts(points@).take(0)));
    }
    let mut i: usize = 0;
    while i < points.len()
        invariant
            i <= points.len(),
            " "@ == seq![' '],
            ","@ == seq![','],
            path@ == path_text(texts(points@).take(i as int)),
        decreases points.len() - i,
    {
        let ghost before = path@;
        path.append(" ");
        path.append(points[i].0.as_str());
        path.append(",");
        path.append(points[i].1.as_str());
        proof {
            let all = texts(points@);
            let next = all.take(i + 1);
            assert(next.drop_last() =~= all.take(i as int));
            assert(next.last() == all[i as int]);
            assert(path@ =~= before + point_text(all[i as int]));
            assert(path@ =~= path_text(next));
        }
        i = i + 1;
    }
    proof {
        assert(texts(points@).take(i as int) =~= texts(points@));
    }
    path
}

/// Sets a path into its picture.
pub fn picture(path: &str) -> (text: String)
    ensures
        text@ == picture_text(path@),
{
    let mut text = String::from_str(
        "<svg xmlns=\"http://www.w3.org/2000/svg\" width=\"500\" height=\"500\"><path d=\"",
    );
    text.append(path);
    text.append("\" stroke=\"black\" fill=\"none\" stroke-width=\"2\"/></svg>");
    text
}

} // verus!
