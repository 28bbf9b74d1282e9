use vstd::prelude::*;
use super::ParameterLevel;

verus! {

/// The script that builds and starts the target.
pub struct ScriptInfo {
    pub name: String,
    pub fulltag: String,
    pub envfile: String,
}

/// An integer parameter: its space is `min, min + step, ..., max`.
pub struct IntParameter {
    pub name: String,
    pub min: usize,
    pub max: usize,
    pub step: usize,
    pub default: usize,
    pub level: ParameterLevel,
}

/// A switch, with the text that stands for each of its values.
pub struct BoolParameter {
    pub name: String,
    pub true_val: String,
    pub false_val: String,
    pub default: bool,
    pub level: ParameterLevel,
}

pub struct IntParameterView {
    pub name: Seq<char>,
    pub min: usize,
    pub max: usize,
    pub step: usize,
    pub default: usize,
    pub level: ParameterLevel,
}

pub struct BoolParameterView {
    pub name: Seq<char>,
    pub true_val: Seq<char>,
    pub false_val: Seq<char>,
    pub default: bool,
    pub level: ParameterLevel,
}

impl View for IntParameter {
    type V = IntParameterView;

    open spec fn view(&self) -> IntParameterView {
        IntParameterView {
            name: self.name@,
            min: self.min,
            max: self.max,
            step: self.step,
            default: self.default,
            level: self.level,
        }
    }
}

impl View for BoolParameter {
    type V = BoolParameterView;

    open spec fn view(&self) -> BoolParameterView {
        BoolParameterView {
            name: self.name@,
            true_val: self.true_val@,
            false_val: self.false_val@,
            default: self.default,
            level: self.level,
        }
    }
}

impl Clone for IntParameter {
    fn clone(&self) -> (r: Self)
        ensures
            r == *self,
    {
        IntParameter {
            name: self.name.clone(),
            min: self.min,
            max: self.max,
            step: self.step,
            default: self.default,
            level: self.level,
        }
    }
}

impl Clone for BoolParameter {
    fn clone(&self) -> (r: Self)
        ensures
            r == *self,
    {
        BoolParameter {
            name: self.name.clone(),
            true_val: self.true_val.clone(),
            false_val: self.false_val.clone(),
            default: self.default,
            level: self.level,
        }
    }
}

/// Addresses of agents that are free to take work.
pub struct ProcessPool(Vec<String>);

impl View for ProcessPool {
    type V = Seq<Seq<char>>;

    closed spec fn view(&self) -> Seq<Seq<char>> {
        self.0@.map_values(|s: String| s@)
    }
}

impl ProcessPool {
    pub fn new() -> (r: Self)
        ensures
            r@ == Seq::<Seq<char>>::empty(),
    {
        let r = ProcessPool(Vec::new());
        assert(r@ =~= Seq::<Seq<char>>::empty());
        r
    }

    pub fn push(&mut self, elem: String)
        ensures
            final(self)@ == old(self)@.push(elem@),
    {
        self.0.push(elem);
        assert(self@ =~= old(self)@.push(elem@));
    }

    /// Takes the most recently added address.
    pub fn pop(&mut self) -> (r: String)
        requires
            old(self)@.len() > 0,
        ensures
            r@ == old(self)@.last(),
            final(self)@ == old(self)@.drop_last(),
    {
        let r = match self.0.pop() {
            Some(s) => s,
            None => unreached(),
        };
        assert(self@ =~= old(self)@.drop_last());
        r
    }

    pub fn size(&self) -> (n: usize)
        ensures
            n == self@.len(),
    {
        self.0.len()
    }
}

} // verus!
