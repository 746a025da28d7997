use vstd::prelude::*;

verus! {

/// How a local branch tip relates to its upstream-tracking branch tip,
/// measured along the commit graph.
///
/// `Unavailable` is not an error: it is the legitimate state of a
/// repository whose head or upstream cannot be resolved (detached head,
/// no tracking branch configured).
#[derive(Clone, Copy, Debug, PartialEq, Eq, Structural)]
pub enum Distance {
    /// Neither side has commits the other lacks.
    Same,
    /// The local tip has commits the upstream lacks, and none the other way.
    Ahead,
    /// The upstream tip has commits the local tip lacks, and none the other way.
    Behind,
    /// Both sides have commits the other lacks.
    Both,
    /// No local head or no resolvable upstream: no comparison is possible.
    Unavailable,
}

/// The classification of a pair of ahead/behind commit counts.
pub open spec fn spec_distance(ahead: nat, behind: nat) -> Distance {
    if ahead == 0 && behind == 0 {
        Distance::Same
    } else if ahead > 0 && behind == 0 {
        Distance::Ahead
    } else if ahead == 0 && behind > 0 {
        Distance::Behind
    } else {
        Distance::Both
    }
}

impl Distance {
    /// Classify a pair of ahead/behind commit counts.
    pub fn of_counts(ahead: usize, behind: usize) -> (d: Distance)
        ensures
            d == spec_distance(ahead as nat, behind as nat),
            !(d is Unavailable),
    {
        if ahead == 0 && behind == 0 {
            Distance::Same
        } else if ahead > 0 && behind == 0 {
            Distance::Ahead
        } else if ahead == 0 && behind > 0 {
            Distance::Behind
        } else {
            Distance::Both
        }
    }

    /// The rendered form of a distance. `Unavailable` renders empty.
    pub open spec fn spec_symbol(self) -> Seq<char> {
        match self {
            Distance::Same => seq!['=', '='],
            Distance::Ahead => seq!['>', '>'],
            Distance::Behind => seq!['<', '<'],
            Distance::Both => seq!['<', '>'],
            Distance::Unavailable => Seq::<char>::empty(),
        }
    }

    /// Render the distance symbol.
    pub fn symbol(&self) -> (r: String)
        ensures
            r@ == self.spec_symbol(),
    {
        proof {
            reveal_strlit("==");
            reveal_strlit(">>");
            reveal_strlit("<<");
            reveal_strlit("<>");
            reveal_strlit("");
        }
        let r = match self {
            Distance::Same => "==",
            Distance::Ahead => ">>",
            Distance::Behind => "<<",
            Distance::Both => "<>",
            Distance::Unavailable => "",
        };
        proof {
            assert(r@ =~= self.spec_symbol());
        }
        r.to_owned()
    }
}

/// The count classification is total and the four reachable variants
/// partition the space of count pairs: every pair falls in exactly one
/// variant, and `Unavailable` is never assigned to a pair of counts.
pub proof fn lemma_distance_partitions_counts(ahead: nat, behind: nat)
    ensures
        spec_distance(ahead, behind) == Distance::Same <==> (ahead == 0 && behind == 0),
        spec_distance(ahead, behind) == Distance::Ahead <==> (ahead > 0 && behind == 0),
        spec_distance(ahead, behind) == Distance::Behind <==> (ahead == 0 && behind > 0),
        spec_distance(ahead, behind) == Distance::Both <==> (ahead > 0 && behind > 0),
        spec_distance(ahead, behind) != Distance::Unavailable,
{
}

} // verus!
