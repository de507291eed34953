# truck-certified

The bookkeeping core of a certified surface–surface intersection kernel.

`src/` is verified with Verus. It holds the claim/refusal algebra (which
class backs each refusal), the typed implication relation between residuals
and its order laws, the certified-topology identifiers, node identity under
Rules A/C, the dyadic sampling join (associative, commutative, idempotent),
deck accounting along arc chains, graph reference resolution, and the integer
gates of chart lifts, canals, contact classification, tube certification,
leaf admission and edge promotion.

`app/` is ordinary Rust around it: the `f64` shapes (parameter boxes, point
and tube-overlap certificates, chart parameters), the float front ends of
identity and deck identification, dyadic sample placement, and Bézier leaf
extraction from `truck_geometry` NURBS surfaces. Each of these reads or
computes floating-point data and hands the decision to the library.

`tests/` exercises the library on concrete values.
